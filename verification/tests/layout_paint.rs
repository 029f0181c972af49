//! Layout determinism and the recorded paint commands.

use kakapo::{
    AppInner, Button, Description, Label, PaintCmd, Painter, Position, Rect, Rgba, Size, Stack,
    UserData, ViewLogic, ViewRefs, WidgetTree, WidgetTreeFactory,
};

fn grey() -> Rgba {
    Rgba { r: 128, g: 128, b: 128, a: 255 }
}

fn two_button_stack() -> Description {
    let s = Stack::new()
        .append(Description::Button(Button::new(grey(), 1).with_key(kakapo::WidgetKey(1))))
        .append(Description::Button(Button::new(grey(), 2).with_key(kakapo::WidgetKey(2))));
    Description::Stack(s)
}

fn materialized_root(desc: Description) -> WidgetTree {
    let mut app = AppInner::new();
    let mut refs = ViewRefs::new();
    let factory = WidgetTreeFactory::new();
    let logic = ViewLogic::new(vec![desc]);
    let mut tree = factory.new_view(&mut app, &mut refs, logic, Some(UserData::new()));
    tree.materialize();
    tree
}

fn child_rect(tree: &WidgetTree, i: usize) -> Rect {
    match tree {
        WidgetTree::View(v) => match v.widget.as_ref().unwrap() {
            WidgetTree::Layout(l) => match &l.children[i] {
                WidgetTree::Widget(w) => w.allocation.expect("laid out"),
                _ => panic!("expected a widget child"),
            },
            _ => panic!("expected a layout subtree"),
        },
        _ => panic!("expected a view root"),
    }
}

#[test]
fn stack_size_hint_is_max_width_and_summed_height() {
    let tree = materialized_root(two_button_stack());
    let hint = tree.size_hint();
    assert_eq!(hint, Size::new(100, 200));
}

#[test]
fn stack_layout_is_independent_of_container_size() {
    let expected0 = Rect::new(Position::new(0, 0), Size::new(100, 100));
    let expected1 = Rect::new(Position::new(0, 100), Size::new(100, 100));
    for container in [Size::new(100, 200), Size::new(9999, 7), Size::new(0, 0)] {
        let mut tree = materialized_root(two_button_stack());
        tree.set_rect(Rect::new(Position::zero(), container));
        assert_eq!(child_rect(&tree, 0), expected0);
        assert_eq!(child_rect(&tree, 1), expected1);
    }
}

#[test]
fn stack_hint_uses_widest_child() {
    let s = Stack::new()
        .append(Description::Button(Button::new(grey(), 1).with_hint(Size::new(40, 10))))
        .append(Description::Button(Button::new(grey(), 2).with_hint(Size::new(70, 25))));
    let tree = materialized_root(Description::Stack(s));
    assert_eq!(tree.size_hint(), Size::new(70, 35));
}

#[test]
fn empty_stack_hint_is_zero() {
    let tree = materialized_root(Description::Stack(Stack::new()));
    assert_eq!(tree.size_hint(), Size::new(0, 0));
}

#[test]
fn negative_hints_are_clamped_to_zero() {
    let s = Stack::new().append(Description::Button(
        Button::new(grey(), 1).with_hint(Size::new(-50, -3)),
    ));
    let tree = materialized_root(Description::Stack(s));
    assert_eq!(tree.size_hint(), Size::new(0, 0));
}

#[test]
fn paint_records_quads_and_centred_text() {
    let s = Stack::new()
        .append(Description::Button(
            Button::new(grey(), 1).with_key(kakapo::WidgetKey(1)).add_text(String::from("ok")),
        ))
        .append(Description::Label(Label::new().add_text(String::from("hello"))));
    let mut tree = materialized_root(Description::Stack(s));
    let hint = tree.size_hint();
    tree.set_rect(Rect::new(Position::zero(), hint));

    let mut painter = Painter::new();
    tree.paint(Position::zero(), &mut painter);
    let cmds = painter.commands();
    assert_eq!(cmds.len(), 3);
    match &cmds[0] {
        PaintCmd::Quad { rect, colour } => {
            assert_eq!(*rect, Rect::new(Position::new(0, 0), Size::new(100, 100)));
            assert_eq!(*colour, grey());
        },
        _ => panic!("first command paints the button's quad"),
    }
    match &cmds[1] {
        PaintCmd::Text { pos, text } => {
            assert_eq!(*pos, Position::new(50, 50));
            assert_eq!(text, &vec![String::from("ok")]);
        },
        _ => panic!("second command paints the button's text"),
    }
    match &cmds[2] {
        PaintCmd::Text { pos, text } => {
            assert_eq!(*pos, Position::new(50, 150));
            assert_eq!(text, &vec![String::from("hello")]);
        },
        _ => panic!("third command paints the label's text"),
    }
}

#[test]
fn paint_is_free_of_side_effects() {
    let mut tree = materialized_root(two_button_stack());
    let hint = tree.size_hint();
    tree.set_rect(Rect::new(Position::zero(), hint));

    let mut first = Painter::new();
    tree.paint(Position::zero(), &mut first);
    let mut second = Painter::new();
    tree.paint(Position::zero(), &mut second);
    assert_eq!(first.commands().len(), second.commands().len());
    for (a, b) in first.commands().iter().zip(second.commands().iter()) {
        match (a, b) {
            (PaintCmd::Quad { rect: r1, colour: c1 }, PaintCmd::Quad { rect: r2, colour: c2 }) => {
                assert_eq!(r1, r2);
                assert_eq!(c1, c2);
            },
            (PaintCmd::Text { pos: p1, text: t1 }, PaintCmd::Text { pos: p2, text: t2 }) => {
                assert_eq!(p1, p2);
                assert_eq!(t1, t2);
            },
            _ => panic!("command kinds differ between identical paints"),
        }
    }
}

#[test]
fn paint_shifts_by_the_given_origin() {
    let mut tree = materialized_root(two_button_stack());
    let hint = tree.size_hint();
    tree.set_rect(Rect::new(Position::zero(), hint));
    let mut painter = Painter::new();
    tree.paint(Position::new(30, 40), &mut painter);
    match &painter.commands()[0] {
        PaintCmd::Quad { rect, .. } => {
            assert_eq!(rect.origin, Position::new(30, 40));
        },
        _ => panic!("expected a quad first"),
    }
}

#[test]
fn stack_height_saturates_at_the_grid_edge() {
    let limit: i64 = 0x4000_0000;
    let s = Stack::new()
        .append(Description::Button(Button::new(grey(), 1).with_hint(Size::new(10, limit))))
        .append(Description::Button(Button::new(grey(), 2).with_hint(Size::new(10, limit))));
    let tree = materialized_root(Description::Stack(s));
    let hint = tree.size_hint();
    assert_eq!(hint, Size::new(10, limit), "the summed height saturates at the grid edge");
}

#[test]
fn oversized_hints_are_clamped_to_the_grid() {
    let limit: i64 = 0x4000_0000;
    let s = Stack::new().append(Description::Button(
        Button::new(grey(), 1).with_hint(Size::new(i64::MAX, limit + 17)),
    ));
    let tree = materialized_root(Description::Stack(s));
    assert_eq!(tree.size_hint(), Size::new(limit, limit));
}
