use reactive_dom::reactive::Runtime;

#[test]
fn new_runtime_has_nothing_running() {
    let rt = Runtime::new();
    assert_eq!(rt.running(), None);
}

#[test]
fn get_returns_initial_and_set_stores() {
    let mut rt = Runtime::new();
    let cx = rt.create_scope();
    let a = rt.create_signal(cx, 7);
    assert_eq!(rt.get(a), 7);
    let pass = rt.set(a, -3);
    assert!(pass.is_empty());
    assert_eq!(rt.get(a), -3);
}

#[test]
fn update_applies_function() {
    let mut rt = Runtime::new();
    let cx = rt.create_scope();
    let a = rt.create_signal(cx, 5);
    rt.update(a, |n| n + 1);
    assert_eq!(rt.get(a), 6);
    rt.update(a, |n| n - 10);
    assert_eq!(rt.get(a), -4);
}

#[test]
fn pass_lists_dependents_once_in_registration_order() {
    let mut rt = Runtime::new();
    let cx = rt.create_scope();
    let a = rt.create_signal(cx, 0);
    let b = rt.create_signal(cx, 0);
    let e0 = rt.create_effect(cx);
    rt.get(a);
    rt.get(a);
    rt.end_run();
    let e1 = rt.create_effect(cx);
    rt.get(b);
    rt.end_run();
    let e2 = rt.create_effect(cx);
    rt.get(b);
    rt.get(a);
    rt.end_run();
    assert_eq!(rt.set(a, 1), vec![e0, e2]);
    assert_eq!(rt.set(b, 1), vec![e1, e2]);
}

#[test]
fn dependencies_are_replaced_on_each_run() {
    let mut rt = Runtime::new();
    let cx = rt.create_scope();
    let a = rt.create_signal(cx, 0);
    let b = rt.create_signal(cx, 0);
    let e = rt.create_effect(cx);
    rt.get(a);
    rt.end_run();
    assert_eq!(rt.set(a, 1), vec![e]);
    rt.begin_run(e);
    assert_eq!(rt.running(), Some(e));
    rt.get(b);
    rt.end_run();
    assert_eq!(rt.running(), None);
    assert!(rt.set(a, 2).is_empty());
    assert_eq!(rt.set(b, 2), vec![e]);
}

#[test]
fn reads_outside_a_run_are_not_tracked() {
    let mut rt = Runtime::new();
    let cx = rt.create_scope();
    let a = rt.create_signal(cx, 0);
    let e = rt.create_effect(cx);
    rt.end_run();
    rt.get(a);
    assert!(rt.set(a, 3).is_empty());
    rt.begin_run(e);
    rt.end_run();
    assert!(rt.set(a, 4).is_empty());
}

#[test]
fn disposed_scope_effects_never_run_again() {
    let mut rt = Runtime::new();
    let root = rt.create_scope();
    let child = rt.create_scope();
    let a = rt.create_signal(root, 0);
    let e0 = rt.create_effect(child);
    rt.get(a);
    rt.end_run();
    let e1 = rt.create_effect(root);
    rt.get(a);
    rt.end_run();
    assert_eq!(rt.set(a, 1), vec![e0, e1]);
    rt.dispose_scope(child);
    assert_eq!(rt.set(a, 2), vec![e1]);
}
