use jukeboxd::reactive::Runtime;

#[test]
fn read_returns_the_value_last_written() {
    let mut rt = Runtime::new();
    let mut cell = rt.create_cell(1u32);
    assert_eq!(*rt.read(&cell), 1);
    rt.write(&mut cell, 7);
    assert_eq!(*rt.read(&cell), 7);
    assert_eq!(*rt.read(&cell), 7);
    assert_eq!(*cell.peek(), 7);
    rt.write(&mut cell, 9);
    assert_eq!(*rt.read(&cell), 9);
}

#[test]
fn cells_are_told_apart_by_identity_not_by_value() {
    let mut rt = Runtime::new();
    let a = rt.create_cell(5u8);
    let b = rt.create_cell(5u8);
    assert_eq!(a.key(), 0);
    assert_eq!(b.key(), 1);
    assert_eq!(rt.cell_count(), 2);
    let s = rt.create_scope();
    assert!(rt.begin_render(s));
    rt.read(&a);
    rt.end_render();
    assert!(rt.is_subscribed(s, a.key()));
    assert!(!rt.is_subscribed(s, b.key()));
}

#[test]
fn write_notifies_each_subscriber_once_in_subscription_order() {
    let mut rt = Runtime::new();
    let mut cell = rt.create_cell(0i32);
    let first = rt.create_scope();
    let second = rt.create_scope();
    let third = rt.create_scope();
    assert_eq!(rt.scope_count(), 3);

    assert!(rt.begin_render(second));
    rt.read(&cell);
    rt.read(&cell);
    rt.end_render();
    assert!(rt.begin_render(first));
    rt.read(&cell);
    rt.end_render();

    assert_eq!(rt.write(&mut cell, 1), vec![second, first]);
    assert!(!rt.is_subscribed(third, cell.key()));
}

#[test]
fn writing_the_same_value_still_notifies() {
    let mut rt = Runtime::new();
    let mut cell = rt.create_cell(3i32);
    let s = rt.create_scope();
    assert!(rt.begin_render(s));
    rt.read(&cell);
    rt.end_render();
    assert_eq!(rt.write(&mut cell, 3), vec![s]);
    assert_eq!(rt.write(&mut cell, 3), vec![s]);
    assert_eq!(rt.write(&mut cell, 4), vec![s]);
}

#[test]
fn every_write_has_its_own_notification_pass() {
    let mut rt = Runtime::new();
    let mut a = rt.create_cell(0u8);
    let mut b = rt.create_cell(0u8);
    let s = rt.create_scope();
    assert!(rt.begin_render(s));
    rt.read(&a);
    rt.read(&b);
    rt.end_render();
    assert_eq!(rt.write(&mut a, 1), vec![s]);
    assert_eq!(rt.write(&mut b, 1), vec![s]);
}

#[test]
fn stale_subscription_is_pruned() {
    let mut rt = Runtime::new();
    let mut a = rt.create_cell(0u8);
    let mut b = rt.create_cell(0u8);
    let s = rt.create_scope();
    let other = rt.create_scope();

    assert!(rt.begin_render(other));
    rt.read(&a);
    rt.end_render();
    assert!(rt.begin_render(s));
    rt.read(&a);
    rt.read(&b);
    rt.end_render();
    assert_eq!(rt.write(&mut a, 1), vec![other, s]);

    assert!(rt.begin_render(s));
    rt.read(&b);
    rt.end_render();
    assert_eq!(rt.write(&mut a, 2), vec![other]);
    assert_eq!(rt.write(&mut b, 2), vec![s]);
    assert!(!rt.is_subscribed(s, a.key()));
    assert!(rt.is_subscribed(s, b.key()));
}

#[test]
fn a_scope_that_renders_again_is_notified_last() {
    let mut rt = Runtime::new();
    let mut cell = rt.create_cell(0u8);
    let first = rt.create_scope();
    let second = rt.create_scope();
    for s in [first, second] {
        assert!(rt.begin_render(s));
        rt.read(&cell);
        rt.end_render();
    }
    assert!(rt.begin_render(first));
    rt.read(&cell);
    rt.end_render();
    assert_eq!(rt.write(&mut cell, 1), vec![second, first]);
}

#[test]
fn reading_outside_a_render_subscribes_nobody() {
    let mut rt = Runtime::new();
    let mut cell = rt.create_cell(String::from("a"));
    let s = rt.create_scope();
    assert_eq!(rt.current_scope(), None);
    assert_eq!(rt.read(&cell), "a");
    assert!(rt.write(&mut cell, String::from("b")).is_empty());
    assert!(!rt.is_subscribed(s, cell.key()));
}

#[test]
fn nested_renders_restore_the_outer_scope() {
    let mut rt = Runtime::new();
    let mut outer_cell = rt.create_cell(0u8);
    let mut inner_cell = rt.create_cell(0u8);
    let outer = rt.create_scope();
    let inner = rt.create_scope();

    assert!(rt.begin_render(outer));
    assert_eq!(rt.current_scope(), Some(outer));
    assert!(rt.begin_render(inner));
    assert_eq!(rt.current_scope(), Some(inner));
    rt.read(&inner_cell);
    rt.end_render();
    assert_eq!(rt.current_scope(), Some(outer));
    rt.read(&outer_cell);
    rt.end_render();
    assert_eq!(rt.current_scope(), None);

    assert_eq!(rt.write(&mut inner_cell, 1), vec![inner]);
    assert_eq!(rt.write(&mut outer_cell, 1), vec![outer]);
}

#[test]
fn teardown_drops_every_subscription_of_the_scope() {
    let mut rt = Runtime::new();
    let mut a = rt.create_cell(0u8);
    let mut b = rt.create_cell(0u8);
    let gone = rt.create_scope();
    let kept = rt.create_scope();
    for s in [gone, kept] {
        assert!(rt.begin_render(s));
        rt.read(&a);
        rt.read(&b);
        rt.end_render();
    }
    rt.teardown(gone);
    assert_eq!(rt.write(&mut a, 1), vec![kept]);
    assert_eq!(rt.write(&mut b, 1), vec![kept]);
    rt.teardown(gone);
    rt.teardown(99);
    assert_eq!(rt.write(&mut a, 2), vec![kept]);
}

#[test]
fn a_scope_that_does_not_exist_cannot_render() {
    let mut rt = Runtime::new();
    let cell = rt.create_cell(0u8);
    assert!(!rt.begin_render(0));
    assert_eq!(rt.current_scope(), None);
    rt.read(&cell);
    rt.end_render();
    assert_eq!(rt.current_scope(), None);
    assert!(!rt.is_subscribed(0, cell.key()));
    assert!(!rt.is_subscribed(0, 17));
}

#[test]
fn a_cell_of_another_runtime_has_no_subscribers_here() {
    let mut home = Runtime::new();
    let mut away = Runtime::new();
    away.create_cell(0u8);
    let mut foreign = away.create_cell(1u8);
    let s = home.create_scope();
    assert!(home.begin_render(s));
    assert_eq!(*home.read(&foreign), 1);
    home.end_render();
    assert!(home.write(&mut foreign, 2).is_empty());
    assert_eq!(*foreign.peek(), 2);
}
