//! Geometry, builders, the readiness checks and the state accessors.

use kakapo::{
    AppInner, Button, Description, Label, Position, Rect, Size, Stack, UserData, ViewLogic,
    ViewRefs, WidgetKey, WidgetState, WidgetTreeFactory,
};

fn grey() -> kakapo::Rgba {
    kakapo::Rgba { r: 1, g: 2, b: 3, a: 4 }
}

#[test]
fn rect_contains_is_half_open() {
    let r = Rect::new(Position::new(10, 20), Size::new(30, 40));
    assert!(r.contains(Position::new(10, 20)));
    assert!(r.contains(Position::new(39, 59)));
    assert!(!r.contains(Position::new(40, 20)));
    assert!(!r.contains(Position::new(10, 60)));
    assert!(!r.contains(Position::new(9, 20)));
}

#[test]
fn rect_center_offsets_by_half_the_difference() {
    let r = Rect::new(Position::new(10, 10), Size::new(100, 50));
    let inner = r.center(Size::new(20, 10));
    assert_eq!(inner, Rect::new(Position::new(50, 30), Size::new(20, 10)));
    // Centring a zero size yields the midpoint.
    let mid = r.center(Size::new(0, 0));
    assert_eq!(mid.origin, Position::new(60, 35));
}

#[test]
fn geometry_constructors() {
    assert_eq!(Position::zero(), Position::new(0, 0));
    assert_eq!(Size::zero(), Size::new(0, 0));
    let r = Rect::new(Position::new(1, 2), Size::new(3, 4));
    assert_eq!(r.origin.x, 1);
    assert_eq!(r.size.height, 4);
}

#[test]
fn widget_state_local_rect_drops_the_origin() {
    let s = WidgetState { rect: Rect::new(Position::new(7, 8), Size::new(9, 10)) };
    assert_eq!(s.rect(), Rect::new(Position::new(7, 8), Size::new(9, 10)));
    let local = s.local_rect();
    assert_eq!(local.origin, Position::zero());
    assert_eq!(local.size, Size::new(9, 10));
}

#[test]
fn button_builders_set_fields() {
    let b = Button::new(grey(), 7)
        .with_key(WidgetKey(5))
        .with_hint(Size::new(40, 30))
        .add_text(String::from("a"))
        .add_text(String::from("b"));
    assert_eq!(b.key, Some(WidgetKey(5)));
    assert_eq!(b.tag, 7);
    assert_eq!(b.colour, grey());
    assert_eq!(b.hint, Size::new(40, 30));
    assert_eq!(b.text, vec![String::from("a"), String::from("b")]);
}

#[test]
fn label_builders_set_fields() {
    let l = Label::new().with_key(WidgetKey(2)).with_hint(Size::new(5, 6)).add_text(
        String::from("x"),
    );
    assert_eq!(l.key, Some(WidgetKey(2)));
    assert_eq!(l.hint, Size::new(5, 6));
    assert_eq!(l.text, vec![String::from("x")]);
}

#[test]
fn description_keys() {
    let b = Description::Button(Button::new(grey(), 1).with_key(WidgetKey(9)));
    assert_eq!(b.key(), Some(WidgetKey(9)));
    let b = Description::Button(Button::new(grey(), 1));
    assert_eq!(b.key(), None);
    let s = Description::Stack(Stack::new());
    assert_eq!(s.key(), None, "a stack never carries an identity");
}

#[test]
fn description_clone_is_deep() {
    let orig = Description::Stack(
        Stack::new().append(Description::Button(
            Button::new(grey(), 3).with_key(WidgetKey(1)).add_text(String::from("t")),
        )),
    );
    let copy = orig.clone();
    match (orig, copy) {
        (Description::Stack(a), Description::Stack(b)) => {
            assert_eq!(a.children.len(), b.children.len());
            match (&a.children[0], &b.children[0]) {
                (Description::Button(x), Description::Button(y)) => {
                    assert_eq!(x.key, y.key);
                    assert_eq!(x.tag, y.tag);
                    assert_eq!(x.text, y.text);
                },
                _ => panic!("child kinds differ"),
            }
        },
        _ => panic!("clone changed the kind"),
    }
}

#[test]
fn readiness_checks_follow_the_lifecycle() {
    let mut app = AppInner::new();
    let mut refs = ViewRefs::new();
    let factory = WidgetTreeFactory::new();
    let s = Description::Stack(Stack::new().append(Description::Button(Button::new(grey(), 1))));
    let logic = ViewLogic::new(vec![s]);
    let mut tree = factory.new_view(&mut app, &mut refs, logic, Some(UserData::new()));

    assert!(tree.is_ready());
    assert!(!tree.is_materialized(), "a fresh view has no subtree");
    tree.materialize();
    assert!(tree.is_materialized());
    assert!(tree.is_ready());

    let hint = tree.size_hint();
    tree.set_rect(Rect::new(Position::zero(), hint));
    assert!(tree.is_materialized());
}

#[test]
fn rect_wf_check() {
    assert!(Rect::new(Position::new(0, 0), Size::new(10, 10)).is_wf());
    assert!(!Rect::new(Position::new(0, 0), Size::new(-1, 10)).is_wf());
}

#[test]
fn user_data_starts_empty() {
    let d = UserData::new();
    assert!(d.presses.is_empty());
}
