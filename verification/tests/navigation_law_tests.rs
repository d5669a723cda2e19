use mdview::navigation::NavigationHistory;

#[test]
fn back_after_visit_returns_to_where_one_was() {
    let mut nav = NavigationHistory::new("/a.md".to_string(), false, (0u32, 7u32));
    nav.navigate_to("/b.txt".to_string(), (0, 0), true);
    assert_eq!(nav.go_back(), Some((&"/a.md".to_string(), (0, 7), false)));
    assert_eq!(nav.go_forward(), Some((&"/b.txt".to_string(), (0, 0), true)));
    assert!(!nav.can_go_forward());
}

#[test]
fn back_and_forward_undo_each_other() {
    let mut nav = NavigationHistory::new("1".to_string(), false, 0u8);
    for p in ["2", "3", "4"] {
        nav.navigate_to(p.to_string(), 0, false);
    }
    nav.go_back();
    nav.go_back();
    assert_eq!(nav.current(), "2");
    nav.go_forward();
    nav.go_back();
    assert_eq!(nav.current(), "2");
    assert!(nav.can_go_back() && nav.can_go_forward());
    nav.go_back();
    assert_eq!(nav.go_back(), None);
    assert_eq!(nav.current(), "1");
}

#[test]
fn scroll_offsets_are_kept_per_document() {
    let mut nav = NavigationHistory::new("a".to_string(), false, 0i32);
    nav.update_current_scroll_offset(40);
    nav.navigate_to("b".to_string(), 5, false);
    nav.update_current_scroll_offset(9);
    nav.go_back();
    assert_eq!(nav.current_scroll_offset(), 40);
    nav.go_forward();
    assert_eq!(nav.current_scroll_offset(), 9);
}
