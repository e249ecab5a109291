use std::cell::RefCell;

use reactive_dom::dom::{El, Surface};
use reactive_dom::reactive::Runtime;

#[test]
fn new_element_is_detached_and_empty() {
    let mut doc = Surface::new();
    assert_eq!(doc.len(), 0);
    let el = El::new(&mut doc, "div");
    assert_eq!(el.id, 0);
    assert_eq!(doc.len(), 1);
    assert_eq!(doc.tag_of(el.id), "div");
    assert!(!doc.is_text(el.id));
    assert_eq!(doc.parent_of(el.id), None);
    assert!(doc.children_of(el.id).is_empty());
    assert_eq!(doc.attribute(el.id, "class"), None);
    assert!(doc.fire(el.id, "click").is_empty());
}

#[test]
fn attribute_overwrite_keeps_last_value() {
    let mut doc = Surface::new();
    let el = El::new(&mut doc, "div")
        .attr(&mut doc, "class", "a")
        .attr(&mut doc, "id", "main")
        .attr(&mut doc, "class", "b");
    assert_eq!(doc.attribute(el.id, "class"), Some("b".to_string()));
    assert_eq!(doc.attribute(el.id, "id"), Some("main".to_string()));
    assert_eq!(doc.attribute(el.id, "title"), None);
}

#[test]
fn listeners_accumulate_per_event() {
    let mut doc = Surface::new();
    let el = El::new(&mut doc, "button")
        .on(&mut doc, "click", 4)
        .on(&mut doc, "input", 9)
        .on(&mut doc, "click", 2);
    assert_eq!(doc.fire(el.id, "click"), vec![4, 2]);
    assert_eq!(doc.fire(el.id, "input"), vec![9]);
    assert!(doc.fire(el.id, "keydown").is_empty());
}

#[test]
fn text_and_child_are_appended_in_order() {
    let mut doc = Surface::new();
    let b = El::new(&mut doc, "button").text(&mut doc, "-1");
    let root = El::new(&mut doc, "div").child(&mut doc, b).text(&mut doc, " Value: ");
    let kids = doc.children_of(root.id);
    assert_eq!(kids.len(), 2);
    assert_eq!(kids[0], b.id);
    assert!(doc.is_text(kids[1]));
    assert_eq!(doc.text_of(kids[1]), " Value: ");
    assert_eq!(doc.binding_of(kids[1]), None);
    assert_eq!(doc.parent_of(b.id), Some(root.id));
    let label = doc.children_of(b.id)[0];
    assert_eq!(doc.text_of(label), "-1");
    assert_eq!(doc.tag_of(label), "");
}

#[test]
fn dyn_text_holds_initial_until_refreshed() {
    let mut doc = Surface::new();
    let el = El::new(&mut doc, "p").dyn_text(&mut doc, 3, "first").text(&mut doc, "static");
    let kids = doc.children_of(el.id);
    assert_eq!(doc.text_of(kids[0]), "first");
    assert_eq!(doc.binding_of(kids[0]), Some(3));
    doc.refresh(8, "other");
    assert_eq!(doc.text_of(kids[0]), "first");
    doc.refresh(3, "second");
    assert_eq!(doc.text_of(kids[0]), "second");
    assert_eq!(doc.text_of(kids[1]), "static");
}

fn render(rt: &mut Runtime, count: usize) -> String {
    rt.get(count).to_string()
}

#[test]
fn counter_text_follows_signal() {
    let mut rt = Runtime::new();
    let mut doc = Surface::new();
    let cx = rt.create_scope();
    let count = rt.create_signal(cx, 0);
    let e = rt.create_effect(cx);
    let initial = render(&mut rt, count);
    rt.end_run();
    let el = El::new(&mut doc, "div").dyn_text(&mut doc, e, &initial);
    let node = doc.children_of(el.id)[0];
    assert_eq!(doc.text_of(node), "0");

    for eff in rt.set(count, 5) {
        rt.begin_run(eff);
        let s = render(&mut rt, count);
        rt.end_run();
        doc.refresh(eff, &s);
    }
    assert_eq!(doc.text_of(node), "5");

    for eff in rt.update(count, |n| n + 1) {
        rt.begin_run(eff);
        let s = render(&mut rt, count);
        rt.end_run();
        doc.refresh(eff, &s);
    }
    assert_eq!(doc.text_of(node), "6");
}

#[test]
fn click_runs_both_handlers_in_order() {
    let log: RefCell<Vec<String>> = RefCell::new(Vec::new());
    let h1 = || log.borrow_mut().push("h1".to_string());
    let h2 = || log.borrow_mut().push("h2".to_string());
    let handlers: Vec<&dyn Fn()> = vec![&h1, &h2];

    let mut doc = Surface::new();
    let button = El::new(&mut doc, "button")
        .on(&mut doc, "click", 0)
        .on(&mut doc, "click", 1);
    for h in doc.fire(button.id, "click") {
        handlers[h]();
    }
    assert_eq!(*log.borrow(), vec!["h1".to_string(), "h2".to_string()]);
}
