use mdview::bridge::{
    cache_file_name, content_uri_error, display_name, list_tree_markdown, open_external,
    picker_poll, read_plan, read_to_string, tree_miss_error, PickerPoll, ReadStep,
    PICKER_CANCELLED,
};

#[test]
fn picker_replies() {
    assert_eq!(picker_poll(None), PickerPoll::Waiting);
    assert_eq!(picker_poll(Some(PICKER_CANCELLED.to_string())), PickerPoll::Cancelled);
    assert_eq!(
        picker_poll(Some("content://x/doc".to_string())),
        PickerPoll::Picked("content://x/doc".to_string())
    );
}

#[test]
fn open_external_reply_is_ok_in_any_case() {
    assert!(open_external(Some("ok".to_string())));
    assert!(open_external(Some("OK".to_string())));
    assert!(open_external(Some("oK".to_string())));
    assert!(!open_external(Some("okay".to_string())));
    assert!(!open_external(Some("".to_string())));
    assert!(!open_external(None));
}

#[test]
fn empty_display_names_are_no_names() {
    assert_eq!(display_name(Some("a.md".to_string())), Some("a.md".to_string()));
    assert_eq!(display_name(Some(String::new())), None);
    assert_eq!(display_name(None), None);
}

#[test]
fn folder_listing_lines() {
    assert_eq!(
        list_tree_markdown(Some("a.md\nsub/b.md\n\nc.txt\n".to_string())),
        vec!["a.md".to_string(), "sub/b.md".to_string(), "c.txt".to_string()]
    );
    assert_eq!(
        list_tree_markdown(Some("a.md\r\nb.md\r\n\r\nlast\r".to_string())),
        vec!["a.md".to_string(), "b.md".to_string(), "last\r".to_string()]
    );
    assert!(list_tree_markdown(Some(String::new())).is_empty());
    assert!(list_tree_markdown(None).is_empty());
}

#[test]
fn documents_must_be_utf8() {
    assert_eq!(read_to_string(Ok(b"# Hi \xc3\xa9".to_vec())), Ok("# Hi \u{e9}".to_string()));
    assert_eq!(read_to_string(Err("gone".to_string())), Err("gone".to_string()));
    let err = read_to_string(Ok(vec![b'a', 0xff, b'b'])).unwrap_err();
    assert!(err.starts_with("File is not valid UTF-8: "), "{err}");
    assert!(err.len() > "File is not valid UTF-8: ".len());
}

#[test]
fn cache_names_are_file_system_safe() {
    assert_eq!(cache_file_name("notes v2.md"), "mdview-notes_v2.md");
    assert_eq!(cache_file_name("a/b:c-d_e"), "mdview-a_b_c-d_e");
    assert_eq!(cache_file_name("\u{e9}t\u{e9}.md"), "mdview-\u{e9}t\u{e9}.md");
    assert_eq!(cache_file_name(""), "mdview-");
}

#[test]
fn read_plans() {
    assert_eq!(
        read_plan("content://a/b", true, Some("tree".to_string())),
        vec![ReadStep::ContentUri("content://a/b".to_string())]
    );
    assert_eq!(
        read_plan("sub/../x.md", false, Some("tree".to_string())),
        vec![ReadStep::TreeRelative { tree: "tree".to_string(), rel: "x.md".to_string() }]
    );
    assert_eq!(
        read_plan("/cache/x.md", true, Some("tree".to_string())),
        vec![
            ReadStep::LocalIfReadable,
            ReadStep::TreeRelative { tree: "tree".to_string(), rel: "cache/x.md".to_string() }
        ]
    );
    assert_eq!(read_plan("/data/x.md", true, None), vec![ReadStep::LocalIfReadable, ReadStep::Local]);
    assert_eq!(read_plan("x.md", false, None), vec![ReadStep::Local]);
}

#[test]
fn read_error_messages() {
    assert_eq!(content_uri_error("content://a"), "Could not read content URI: content://a");
    assert_eq!(tree_miss_error("a/b.md"), "'a/b.md' was not found in the opened folder");
}
