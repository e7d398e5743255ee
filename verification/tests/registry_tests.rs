use rubrail::{format_ident, Ident, RustTouchbarDelegateWrapper, Scrubber};

#[test]
fn fresh_tables_are_empty() {
    let w = RustTouchbarDelegateWrapper::new();
    assert_eq!(w.next_ident_seq(), 0);
    assert_eq!(w.bar_ident(1), None);
    assert_eq!(w.control_item(1), None);
    assert_eq!(w.scrubber(1), None);
    assert_eq!(w.button_callback(1), None);
    assert_eq!(w.slider_callback(1), None);
    assert_eq!(w.next_ident_text(), b"com.trevorbentley.0".to_vec());
}

#[test]
fn bar_registration_is_read_back() {
    let mut w = RustTouchbarDelegateWrapper::new();
    let id = w.register_bar(0x1000, 0x2000);
    assert_eq!(id, Ident { handle: 0x2000, seq: 0 });
    assert_eq!(w.bar_ident(0x1000), Some(0x2000));
    assert_eq!(w.next_ident_seq(), 1);
    assert_eq!(w.next_ident_text(), b"com.trevorbentley.1".to_vec());
}

#[test]
fn numbers_count_up_across_kinds() {
    let mut w = RustTouchbarDelegateWrapper::new();
    assert_eq!(w.register_bar(10, 110).seq, 0);
    assert_eq!(w.register_popover_item(20, 21, 120).seq, 1);
    assert_eq!(w.register_label(30, 31, 130).seq, 2);
    assert_eq!(w.register_text_scrubber(40, 41, 140, 7).seq, 3);
    assert_eq!(w.register_button(50, 51, 150, 8).seq, 4);
    assert_eq!(w.register_slider(60, 61, 160, 9).seq, 5);
    assert_eq!(w.next_ident_seq(), 6);
}

#[test]
fn controls_point_to_their_items() {
    let mut w = RustTouchbarDelegateWrapper::new();
    w.register_popover_item(20, 21, 120);
    w.register_label(30, 31, 130);
    w.register_button(50, 51, 150, 8);
    w.register_slider(60, 61, 160, 9);
    assert_eq!(w.control_item(21), Some(20));
    assert_eq!(w.control_item(31), Some(30));
    assert_eq!(w.control_item(51), Some(50));
    assert_eq!(w.control_item(61), Some(60));
    assert_eq!(w.control_item(20), None);
}

#[test]
fn callbacks_are_read_back() {
    let mut w = RustTouchbarDelegateWrapper::new();
    w.register_button(50, 51, 150, 8);
    w.register_slider(60, 61, 160, 9);
    assert_eq!(w.button_callback(51), Some(8));
    assert_eq!(w.slider_callback(61), Some(9));
    assert_eq!(w.button_callback(61), None);
    assert_eq!(w.slider_callback(51), None);
}

#[test]
fn scrubber_record_is_read_back() {
    let mut w = RustTouchbarDelegateWrapper::new();
    w.register_text_scrubber(40, 41, 140, 7);
    assert_eq!(
        w.scrubber(41),
        Some(Scrubber { data: 7, item: 40, scrubber: 41, ident: 140 })
    );
    assert_eq!(w.bar_ident(40), Some(140));
    assert_eq!(w.scrubber(40), None);
}

#[test]
fn item_idents_in_order() {
    let mut w = RustTouchbarDelegateWrapper::new();
    w.register_label(30, 31, 130);
    w.register_button(50, 51, 150, 8);
    w.register_bar(10, 110);
    assert_eq!(w.item_idents(&vec![50, 30, 10]), Some(vec![150, 130, 110]));
    assert_eq!(w.item_idents(&vec![]), Some(vec![]));
}

#[test]
fn item_idents_refuses_unknown_item() {
    let mut w = RustTouchbarDelegateWrapper::new();
    w.register_label(30, 31, 130);
    assert_eq!(w.item_idents(&vec![30, 31]), None);
}

#[test]
fn object_found_by_identifier_text() {
    let mut w = RustTouchbarDelegateWrapper::new();
    w.register_bar(10, 110);
    w.register_label(30, 31, 130);
    w.register_button(50, 51, 150, 8);
    assert_eq!(w.object_for_identifier(&format_ident(0)), Some(10));
    assert_eq!(w.object_for_identifier(&format_ident(1)), Some(30));
    assert_eq!(w.object_for_identifier(b"com.trevorbentley.2"), Some(50));
    assert_eq!(w.object_for_identifier(&format_ident(3)), None);
    assert_eq!(w.object_for_identifier(b"com.trevorbentley.02"), None);
    assert_eq!(w.object_for_identifier(b"something else"), None);
}

#[test]
fn reregistered_object_keeps_only_its_new_identifier() {
    let mut w = RustTouchbarDelegateWrapper::new();
    w.register_bar(10, 110);
    w.register_bar(20, 120);
    w.register_bar(10, 111);
    assert_eq!(w.bar_ident(10), Some(111));
    assert_eq!(w.object_for_identifier(&format_ident(0)), None);
    assert_eq!(w.object_for_identifier(&format_ident(1)), Some(20));
    assert_eq!(w.object_for_identifier(&format_ident(2)), Some(10));
}

#[test]
fn every_number_below_counter_names_one_object() {
    let mut w = RustTouchbarDelegateWrapper::new();
    w.register_bar(10, 110);
    w.register_popover_item(20, 21, 120);
    w.register_text_scrubber(40, 41, 140, 7);
    w.register_slider(60, 61, 160, 9);
    let n = w.next_ident_seq();
    assert_eq!(n, 4);
    let mut found = Vec::new();
    for s in 0..n {
        found.push(w.object_for_identifier(&format_ident(s)).unwrap());
    }
    assert_eq!(found, vec![10, 20, 40, 60]);
}

#[test]
fn tables_point_to_registered_objects() {
    let mut w = RustTouchbarDelegateWrapper::new();
    w.register_button(50, 51, 150, 8);
    w.register_slider(60, 61, 160, 9);
    w.register_text_scrubber(40, 41, 140, 7);
    for control in [51u64, 61] {
        let item = w.control_item(control).unwrap();
        assert!(w.bar_ident(item).is_some());
    }
    let record = w.scrubber(41).unwrap();
    assert_eq!(record.scrubber, 41);
    assert_eq!(w.bar_ident(record.item), Some(record.ident));
}

#[test]
fn later_identifiers_differ_from_earlier() {
    let mut w = RustTouchbarDelegateWrapper::new();
    let first = w.next_ident_text();
    w.register_bar(10, 110);
    let second = w.next_ident_text();
    w.register_label(30, 31, 130);
    let third = w.next_ident_text();
    assert!(first != second && second != third && first != third);
}
