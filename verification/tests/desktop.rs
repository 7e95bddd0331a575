use rhwp::desktop::{
    is_document_extension, menu_action, recent_after_open, recent_entries, recent_menu_items,
    MenuAction, RecentEntry, RecentSlot, RECENT_MAX,
};

#[test]
fn opened_document_goes_first_without_duplicates() {
    let old = vec![
        Some("/a.hwp".to_string()),
        Some("/b.hwp".to_string()),
        None,
        Some("/c.hwp".to_string()),
    ];
    let r = recent_after_open(&old, "/b.hwp");
    assert_eq!(
        r,
        vec![RecentSlot::Opened, RecentSlot::Kept(0), RecentSlot::Kept(2), RecentSlot::Kept(3)]
    );
}

#[test]
fn recent_list_is_capped() {
    let old: Vec<Option<String>> = (0..15).map(|i| Some(format!("/{i}.hwp"))).collect();
    let r = recent_after_open(&old, "/new.hwp");
    assert_eq!(r.len(), RECENT_MAX);
    assert_eq!(r[0], RecentSlot::Opened);
    assert_eq!(r[9], RecentSlot::Kept(8));
}

#[test]
fn stored_entries_need_path_and_name() {
    let raw = vec![
        (Some("/a.hwp".to_string()), Some("a".to_string())),
        (Some("/b.hwp".to_string()), None),
        (None, Some("c".to_string())),
        (Some("/d.hwpx".to_string()), Some("d".to_string())),
    ];
    let e = recent_entries(raw);
    assert_eq!(e.len(), 2);
    assert_eq!(e[0].path, "/a.hwp");
    assert_eq!(e[1].name, "d");
}

#[test]
fn document_extensions() {
    assert!(is_document_extension(Some("hwp")));
    assert!(is_document_extension(Some("HWPX")));
    assert!(is_document_extension(Some("HwP")));
    assert!(!is_document_extension(Some("hwpxx")));
    assert!(!is_document_extension(Some("doc")));
    assert!(!is_document_extension(None));
}

#[test]
fn menu_actions() {
    assert_eq!(menu_action("recent:/x/문서.hwp"), MenuAction::OpenRecent("/x/문서.hwp".to_string()));
    assert_eq!(menu_action("recent:__none__"), MenuAction::Nothing);
    assert_eq!(menu_action("file:open"), MenuAction::Command("file:open".to_string()));
    assert_eq!(menu_action("recent"), MenuAction::Command("recent".to_string()));
}

#[test]
fn recent_menu() {
    let empty = recent_menu_items(&vec![]);
    assert_eq!(empty.len(), 1);
    assert_eq!(empty[0].id, "recent:__none__");
    assert_eq!(empty[0].label, "(없음)");
    assert!(!empty[0].enabled);

    let items = recent_menu_items(&vec![RecentEntry { path: "/a.hwp".to_string(), name: "a".to_string() }]);
    assert_eq!(items.len(), 1);
    assert_eq!(items[0].id, "recent:/a.hwp");
    assert_eq!(items[0].label, "a");
    assert!(items[0].enabled);
}
