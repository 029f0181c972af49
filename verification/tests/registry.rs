//! The invalidation registry: marks, drains and ordering.

use kakapo::{AppInner, DirtySet, ViewRefs};

#[test]
fn mark_before_drain_is_honoured_at_that_drain() {
    let mut app = AppInner::new();
    app.update_view(4);
    let drained = app.take_views_to_update();
    assert!(drained.contains(4));
}

#[test]
fn mark_after_drain_waits_for_the_next_one() {
    let mut app = AppInner::new();
    app.update_view(4);
    let first = app.take_views_to_update();
    assert!(first.contains(4));

    // A mark arriving after the drain is deferred to the next iteration,
    // and the earlier mark is not applied again.
    app.update_view(9);
    let second = app.take_views_to_update();
    assert!(second.contains(9));
    assert!(!second.contains(4));

    let third = app.take_views_to_update();
    assert!(!third.contains(9));
    assert!(!third.contains(4));
}

#[test]
fn repeated_marks_collapse() {
    let mut d = DirtySet::new();
    d.insert(6);
    d.insert(6);
    d.insert(6);
    assert!(d.contains(6));
    assert!(!d.contains(7));
    let mut taken = d.take();
    assert!(taken.contains(6));
    assert!(!d.contains(6), "the registry is empty after a drain");
    // Draining the drained set again yields it once, then nothing.
    let again = taken.take();
    assert!(again.contains(6));
    assert!(!taken.contains(6));
}

#[test]
fn view_ids_are_unique_and_monotonic() {
    let mut app = AppInner::new();
    let a = app.new_view_id();
    let b = app.new_view_id();
    let c = app.new_view_id();
    assert_eq!(a, 0);
    assert_eq!(b, 1);
    assert_eq!(c, 2);
}

#[test]
fn view_refs_marks_every_registered_view() {
    let mut app = AppInner::new();
    let mut refs = ViewRefs::new();
    let a = app.new_view_id();
    let b = app.new_view_id();
    refs.init(a);
    refs.init(b);
    refs.update(&mut app);
    let drained = app.take_views_to_update();
    assert!(drained.contains(a));
    assert!(drained.contains(b));
    assert!(!drained.contains(99));
}

#[test]
fn model_update_handle_starts_empty() {
    let m = kakapo::ViewModel::new(41i64);
    assert_eq!(m.state, 41);
    let mut app = AppInner::new();
    m.refs.update(&mut app);
    let drained = app.take_views_to_update();
    assert!(!drained.contains(0), "no view was registered yet");
}
