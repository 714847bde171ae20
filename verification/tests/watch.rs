use wiki::watch::{forward, has_suffix, is_markdown, is_mdx, FsEvent, WatchEvent};

#[test]
fn writes_and_creations_update() {
    assert_eq!(forward(FsEvent::Write("a".to_string())), Some(WatchEvent::Update("a".to_string())));
    assert_eq!(forward(FsEvent::Create("b".to_string())), Some(WatchEvent::Update("b".to_string())));
}

#[test]
fn removals_and_renames_pass() {
    assert_eq!(forward(FsEvent::Remove("a".to_string())), Some(WatchEvent::Remove("a".to_string())));
    assert_eq!(
        forward(FsEvent::Rename("a".to_string(), "b".to_string())),
        Some(WatchEvent::Rename("a".to_string(), "b".to_string()))
    );
}

#[test]
fn other_notices_are_dropped() {
    assert_eq!(forward(FsEvent::NoticeWrite("a".to_string())), None);
    assert_eq!(forward(FsEvent::NoticeRemove("a".to_string())), None);
    assert_eq!(forward(FsEvent::Chmod("a".to_string())), None);
    assert_eq!(forward(FsEvent::Rescan), None);
    assert_eq!(forward(FsEvent::Error(None)), None);
}

#[test]
fn suffixes() {
    assert!(has_suffix("notes/a.md", ".md"));
    assert!(!has_suffix("md", ".md"));
    assert!(has_suffix("x", ""));
    assert!(is_markdown("a.md"));
    assert!(!is_markdown("a.mdx"));
    assert!(is_mdx("a.mdx"));
    assert!(!is_mdx("a.md"));
}
