//! Hit-testing and scoped user data.

use kakapo::{
    AppInner, Button, Description, Event, Position, Rect, Rgba, Size, Stack, UserData, ViewLogic,
    ViewRefs, WidgetBehavior, WidgetKey, WidgetTree, WidgetTreeFactory,
};

fn grey() -> Rgba {
    Rgba { r: 128, g: 128, b: 128, a: 255 }
}

fn two_button_stack() -> Description {
    let s = Stack::new()
        .append(Description::Button(Button::new(grey(), 1).with_key(WidgetKey(1))))
        .append(Description::Button(Button::new(grey(), 2).with_key(WidgetKey(2))));
    Description::Stack(s)
}

fn laid_out_root(desc: Description, data: Option<UserData>) -> WidgetTree {
    let mut app = AppInner::new();
    let mut refs = ViewRefs::new();
    let factory = WidgetTreeFactory::new();
    let logic = ViewLogic::new(vec![desc]);
    let mut tree = factory.new_view(&mut app, &mut refs, logic, data);
    tree.materialize();
    let hint = tree.size_hint();
    tree.set_rect(Rect::new(Position::zero(), hint));
    tree
}

fn presses_of(tree: &WidgetTree, i: usize) -> u64 {
    match tree {
        WidgetTree::View(v) => match v.widget.as_ref().unwrap() {
            WidgetTree::Layout(l) => match &l.children[i] {
                WidgetTree::Widget(w) => match &w.widget {
                    WidgetBehavior::Button(b) => b.presses,
                    _ => panic!("expected a button"),
                },
                _ => panic!("expected a widget child"),
            },
            _ => panic!("expected a layout subtree"),
        },
        _ => panic!("expected a view root"),
    }
}

fn log_of(tree: &WidgetTree) -> &Vec<kakapo::Press> {
    match tree {
        WidgetTree::View(v) => &v.user_data.as_ref().expect("view owns data").presses,
        _ => panic!("expected a view root"),
    }
}

#[test]
fn press_routes_to_the_second_child_with_local_point() {
    let mut tree = laid_out_root(two_button_stack(), Some(UserData::new()));
    tree.event(Event::MousePress(Position::new(50, 150)));

    assert_eq!(presses_of(&tree, 0), 0, "the first child was not hit");
    assert_eq!(presses_of(&tree, 1), 1, "exactly the second child was hit");
    let log = log_of(&tree);
    assert_eq!(log.len(), 1);
    assert_eq!(log[0].tag, 2);
    assert_eq!(log[0].pos, Position::new(50, 50), "the point is translated to local origin");
}

#[test]
fn press_outside_every_rect_hits_nothing() {
    let mut tree = laid_out_root(two_button_stack(), Some(UserData::new()));
    tree.event(Event::MousePress(Position::new(50, 250)));
    assert_eq!(presses_of(&tree, 0), 0);
    assert_eq!(presses_of(&tree, 1), 0);
    assert!(log_of(&tree).is_empty());
}

#[test]
fn release_is_not_counted() {
    let mut tree = laid_out_root(two_button_stack(), Some(UserData::new()));
    tree.event(Event::MouseRelease(Position::new(50, 50)));
    assert_eq!(presses_of(&tree, 0), 0);
    assert!(log_of(&tree).is_empty());
}

#[test]
fn press_without_view_data_still_counts_on_the_widget() {
    let mut tree = laid_out_root(two_button_stack(), None);
    tree.event(Event::MousePress(Position::new(50, 50)));
    assert_eq!(presses_of(&tree, 0), 1);
    match &tree {
        WidgetTree::View(v) => assert!(v.user_data.is_none()),
        _ => panic!("expected a view root"),
    }
}

#[test]
fn each_view_logs_into_its_own_data() {
    // Two sibling views, each owning its own user data.
    let mut app = AppInner::new();
    let mut refs = ViewRefs::new();
    let factory = WidgetTreeFactory::new();
    let view = |app: &mut AppInner, refs: &mut ViewRefs, tag: u64| {
        let s = Stack::new().append(Description::Button(
            Button::new(grey(), tag).with_key(WidgetKey(1)),
        ));
        let logic = ViewLogic::new(vec![Description::Stack(s)]);
        factory.new_view(app, refs, logic, Some(UserData::new()))
    };
    let v0 = view(&mut app, &mut refs, 10);
    let v1 = view(&mut app, &mut refs, 20);
    let mut root = factory.new_layout(kakapo::LayoutPolicy::VStack, vec![v0, v1]);
    root.materialize();
    let hint = root.size_hint();
    root.set_rect(Rect::new(Position::zero(), hint));

    // A press on the first view's button: the nearest enclosing view's
    // data receives the record, the sibling's data stays untouched. (A
    // layout node does not translate points by its own origin, so only a
    // subtree placed at the origin can be hit — the second view's button
    // sits in a stack offset to y = 100 and is unreachable, faithful to
    // the single-pass layout protocol.)
    root.event(Event::MousePress(Position::new(50, 50)));

    let data_len = |root: &WidgetTree, i: usize| match root {
        WidgetTree::Layout(l) => match &l.children[i] {
            WidgetTree::View(v) => v.user_data.as_ref().unwrap().presses.len(),
            _ => panic!("expected a view child"),
        },
        _ => panic!("expected a layout root"),
    };
    assert_eq!(data_len(&root, 0), 1);
    assert_eq!(data_len(&root, 1), 0);
    match &root {
        WidgetTree::Layout(l) => match &l.children[0] {
            WidgetTree::View(v) => {
                let log = &v.user_data.as_ref().unwrap().presses;
                assert_eq!(log[0].tag, 10);
                assert_eq!(log[0].pos, Position::new(50, 50));
            },
            _ => panic!("expected a view child"),
        },
        _ => panic!("expected a layout root"),
    }
}

#[test]
fn first_matching_child_wins() {
    // Two buttons whose rects both start at y = 0 cannot happen in a
    // stack, but the first child is tested first: a press at the shared
    // top row goes to child 0.
    let mut tree = laid_out_root(two_button_stack(), Some(UserData::new()));
    tree.event(Event::MousePress(Position::new(0, 0)));
    assert_eq!(presses_of(&tree, 0), 1);
    assert_eq!(presses_of(&tree, 1), 0);
}

#[test]
fn event_position_accessor() {
    let e = Event::MousePress(Position::new(3, 4));
    assert_eq!(e.position(), Position::new(3, 4));
    let e = Event::MouseRelease(Position::new(-1, 2));
    assert_eq!(e.position(), Position::new(-1, 2));
}
