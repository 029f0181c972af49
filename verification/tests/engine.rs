//! Reconciliation and dirty-scoped update, driven through the public API.

use kakapo::{
    AppInner, Button, Description, DirtySet, Event, Label, Position, Rect, Size, Stack, UserData,
    ViewLogic, ViewRefs, WidgetBehavior, WidgetKey, WidgetTree, WidgetTreeFactory,
};

fn red() -> kakapo::Rgba {
    kakapo::Rgba { r: 255, g: 0, b: 0, a: 255 }
}

fn blue() -> kakapo::Rgba {
    kakapo::Rgba { r: 0, g: 0, b: 255, a: 255 }
}

fn button_desc(key: u64, tag: u64, colour: kakapo::Rgba) -> Description {
    Description::Button(Button::new(colour, tag).with_key(WidgetKey(key)))
}

fn stack_of(children: Vec<Description>) -> Description {
    let mut s = Stack::new();
    for c in children {
        s = s.append(c);
    }
    Description::Stack(s)
}

/// The button widget node stored under a view's stack, by child index.
fn button_under_view(tree: &WidgetTree, child: usize) -> &kakapo::ButtonWidget {
    match tree {
        WidgetTree::View(v) => match v.widget.as_ref().expect("materialized") {
            WidgetTree::Layout(l) => match &l.children[child] {
                WidgetTree::Widget(w) => match &w.widget {
                    WidgetBehavior::Button(b) => b,
                    _ => panic!("expected a button"),
                },
                _ => panic!("expected a widget child"),
            },
            _ => panic!("expected a layout subtree"),
        },
        _ => panic!("expected a view root"),
    }
}

fn widget_allocation(tree: &WidgetTree, child: usize) -> Option<Rect> {
    match tree {
        WidgetTree::View(v) => match v.widget.as_ref().expect("materialized") {
            WidgetTree::Layout(l) => match &l.children[child] {
                WidgetTree::Widget(w) => w.allocation,
                _ => panic!("expected a widget child"),
            },
            _ => panic!("expected a layout subtree"),
        },
        _ => panic!("expected a view root"),
    }
}

#[test]
fn identity_reuse_keeps_state_and_applies_fields() {
    let mut app = AppInner::new();
    let mut refs = ViewRefs::new();
    let factory = WidgetTreeFactory::new();
    let logic = ViewLogic::new(vec![
        stack_of(vec![button_desc(7, 1, red())]),
        stack_of(vec![button_desc(7, 1, blue())]),
    ]);
    let mut tree = factory.new_view(&mut app, &mut refs, logic, Some(UserData::new()));
    tree.materialize();
    let hint = tree.size_hint();
    tree.set_rect(Rect::new(Position::zero(), hint));

    // Press the button once so it carries undescribed state.
    tree.event(Event::MousePress(Position::new(10, 10)));
    assert_eq!(button_under_view(&tree, 0).presses, 1);
    let alloc_before = widget_allocation(&tree, 0).expect("laid out");

    // Rebuild with the same identity and kind but a new colour.
    let mut dirty = DirtySet::new();
    dirty.insert(0);
    let changed = tree.update(&dirty);
    assert!(changed);

    let b = button_under_view(&tree, 0);
    assert_eq!(b.colour, blue());
    assert_eq!(b.presses, 1, "undescribed state persists across the rebuild");
    assert_eq!(widget_allocation(&tree, 0), Some(alloc_before));
}

#[test]
fn identity_kind_mismatch_replaces_node() {
    let mut app = AppInner::new();
    let mut refs = ViewRefs::new();
    let factory = WidgetTreeFactory::new();
    let logic = ViewLogic::new(vec![
        stack_of(vec![button_desc(7, 1, red())]),
        stack_of(vec![Description::Label(Label::new().with_key(WidgetKey(7)))]),
    ]);
    let mut tree = factory.new_view(&mut app, &mut refs, logic, None);
    tree.materialize();
    let hint = tree.size_hint();
    tree.set_rect(Rect::new(Position::zero(), hint));

    let mut dirty = DirtySet::new();
    dirty.insert(0);
    assert!(tree.update(&dirty));

    match &tree {
        WidgetTree::View(v) => match v.widget.as_ref().unwrap() {
            WidgetTree::Layout(l) => match &l.children[0] {
                WidgetTree::Widget(w) => {
                    assert!(matches!(w.widget, WidgetBehavior::Label(_)));
                    assert_eq!(w.allocation, None, "a fresh node has no rectangle yet");
                },
                _ => panic!("expected a widget child"),
            },
            _ => panic!("expected a layout subtree"),
        },
        _ => panic!("expected a view root"),
    }
}

#[test]
fn keyless_description_is_never_reused() {
    let mut app = AppInner::new();
    let mut refs = ViewRefs::new();
    let factory = WidgetTreeFactory::new();
    let keyless = |colour| Description::Button(Button::new(colour, 1));
    let logic = ViewLogic::new(vec![
        stack_of(vec![keyless(red())]),
        stack_of(vec![keyless(blue())]),
    ]);
    let mut tree = factory.new_view(&mut app, &mut refs, logic, None);
    tree.materialize();
    let hint = tree.size_hint();
    tree.set_rect(Rect::new(Position::zero(), hint));
    tree.event(Event::MousePress(Position::new(10, 10)));
    assert_eq!(button_under_view(&tree, 0).presses, 1);

    let mut dirty = DirtySet::new();
    dirty.insert(0);
    assert!(tree.update(&dirty));
    // Fresh storage: the press count did not survive.
    assert_eq!(button_under_view(&tree, 0).presses, 0);
    assert_eq!(widget_allocation(&tree, 0), None);
}

#[test]
fn dirty_scoping_rebuilds_only_the_marked_view() {
    let mut app = AppInner::new();
    let mut refs = ViewRefs::new();
    let factory = WidgetTreeFactory::new();
    let view = |app: &mut AppInner, refs: &mut ViewRefs| {
        let logic = ViewLogic::new(vec![
            stack_of(vec![button_desc(1, 1, red())]),
            stack_of(vec![button_desc(1, 1, blue())]),
        ]);
        factory.new_view(app, refs, logic, None)
    };
    let v0 = view(&mut app, &mut refs);
    let v1 = view(&mut app, &mut refs);
    let v2 = view(&mut app, &mut refs);
    let mut root = factory.new_layout(kakapo::LayoutPolicy::VStack, vec![v0, v1, v2]);
    root.materialize();

    // Mark exactly the middle view (identity 1).
    let mut dirty = DirtySet::new();
    dirty.insert(1);
    assert!(root.update(&dirty));

    // The view logic consumed a second step only for the marked view.
    let next_of = |root: &WidgetTree, i: usize| match root {
        WidgetTree::Layout(l) => match &l.children[i] {
            WidgetTree::View(v) => v.view.next,
            _ => panic!("expected a view child"),
        },
        _ => panic!("expected a layout root"),
    };
    let colour_of = |root: &WidgetTree, i: usize| match root {
        WidgetTree::Layout(l) => match &l.children[i] {
            WidgetTree::View(v) => match v.widget.as_ref().unwrap() {
                WidgetTree::Layout(s) => match &s.children[0] {
                    WidgetTree::Widget(w) => match &w.widget {
                        WidgetBehavior::Button(b) => b.colour,
                        _ => panic!("expected a button"),
                    },
                    _ => panic!("expected a widget"),
                },
                _ => panic!("expected a stack subtree"),
            },
            _ => panic!("expected a view child"),
        },
        _ => panic!("expected a layout root"),
    };
    assert_eq!(next_of(&root, 0), 1, "unmarked sibling was not rebuilt");
    assert_eq!(next_of(&root, 1), 2, "the marked view consumed its second step");
    assert_eq!(next_of(&root, 2), 1, "unmarked sibling was not rebuilt");
    assert_eq!(colour_of(&root, 0), red());
    assert_eq!(colour_of(&root, 1), blue());
    assert_eq!(colour_of(&root, 2), red());

    // An update against an empty dirty set reports no change.
    let none = DirtySet::new();
    assert!(!root.update(&none));
}

#[test]
fn update_returns_false_for_clean_tree() {
    let mut app = AppInner::new();
    let mut refs = ViewRefs::new();
    let factory = WidgetTreeFactory::new();
    let logic = ViewLogic::new(vec![stack_of(vec![button_desc(1, 1, red())])]);
    let mut tree = factory.new_view(&mut app, &mut refs, logic, None);
    tree.materialize();
    let mut dirty = DirtySet::new();
    dirty.insert(999);
    assert!(!tree.update(&dirty), "a mark for an unknown identity is a harmless no-op");
}

#[test]
fn script_clamps_at_its_last_description() {
    let mut app = AppInner::new();
    let mut refs = ViewRefs::new();
    let factory = WidgetTreeFactory::new();
    let logic = ViewLogic::new(vec![
        stack_of(vec![button_desc(7, 1, red())]),
        stack_of(vec![button_desc(7, 1, blue())]),
    ]);
    let mut tree = factory.new_view(&mut app, &mut refs, logic, None);
    tree.materialize();
    let mut dirty = DirtySet::new();
    dirty.insert(0);
    assert!(tree.update(&dirty));
    assert!(tree.update(&dirty));
    assert!(tree.update(&dirty));
    assert_eq!(button_under_view(&tree, 0).colour, blue());
}

#[test]
fn apply_mismatch_returns_description_unconsumed() {
    let desc = Description::Button(
        Button::new(red(), 9).with_key(WidgetKey(3)).add_text(String::from("go")),
    );
    let mut widget = WidgetBehavior::Label(kakapo::LabelWidget {
        hint: Size::new(10, 10),
        text: Vec::new(),
    });
    match desc.apply(&mut widget) {
        Ok(()) => panic!("kinds differ, apply must not succeed"),
        Err(back) => match back {
            Description::Button(b) => {
                assert_eq!(b.key, Some(WidgetKey(3)));
                assert_eq!(b.tag, 9);
                assert_eq!(b.colour, red());
                assert_eq!(b.text, vec![String::from("go")]);
            },
            _ => panic!("the very description comes back"),
        },
    }
    // The mismatched widget was not touched.
    match &widget {
        WidgetBehavior::Label(l) => {
            assert_eq!(l.hint, Size::new(10, 10));
            assert!(l.text.is_empty());
        },
        _ => panic!("widget changed kind"),
    }
}

#[test]
fn apply_match_replaces_described_fields() {
    let desc = Description::Button(Button::new(blue(), 5).with_key(WidgetKey(1)));
    let mut widget = WidgetBehavior::Button(kakapo::ButtonWidget {
        colour: red(),
        tag: 4,
        hint: Size::new(100, 100),
        text: vec![String::from("old")],
        presses: 17,
    });
    assert!(desc.apply(&mut widget).is_ok());
    match &widget {
        WidgetBehavior::Button(b) => {
            assert_eq!(b.colour, blue());
            assert_eq!(b.tag, 5);
            assert!(b.text.is_empty());
            assert_eq!(b.presses, 17, "undescribed state persists");
        },
        _ => panic!("widget changed kind"),
    }
}

#[test]
fn equal_keys_in_one_list_reuse_at_most_once() {
    // Identities are unique only within one parent's child list at one
    // point in time; a description list that repeats a key can claim the
    // retained node only once — the second claimant builds fresh.
    let mut app = AppInner::new();
    let mut refs = ViewRefs::new();
    let factory = WidgetTreeFactory::new();
    let logic = ViewLogic::new(vec![
        stack_of(vec![button_desc(1, 1, red())]),
        stack_of(vec![button_desc(1, 2, blue()), button_desc(1, 3, blue())]),
    ]);
    let mut tree = factory.new_view(&mut app, &mut refs, logic, Some(UserData::new()));
    tree.materialize();
    let hint = tree.size_hint();
    tree.set_rect(Rect::new(Position::zero(), hint));
    tree.event(Event::MousePress(Position::new(10, 10)));
    assert_eq!(button_under_view(&tree, 0).presses, 1);

    let mut dirty = DirtySet::new();
    dirty.insert(0);
    assert!(tree.update(&dirty));

    // The first child claimed the retained node (press count kept); the
    // second found the identity already claimed and was built fresh.
    assert_eq!(button_under_view(&tree, 0).presses, 1);
    assert_eq!(button_under_view(&tree, 0).tag, 2);
    assert_eq!(button_under_view(&tree, 1).presses, 0);
    assert_eq!(button_under_view(&tree, 1).tag, 3);
    assert_eq!(widget_allocation(&tree, 1), None);
}
