use quota_dial::discovery::{collected_files, session_directories, visit_action, EntryKind, VisitAction};

#[test]
fn sessions_and_archived_sessions_are_searched() {
    assert_eq!(session_directories(), vec!["sessions".to_string(), "archived_sessions".to_string()]);
}

#[test]
fn directories_are_walked_and_only_jsonl_files_kept() {
    assert_eq!(visit_action("/h/sessions/2026".into(), EntryKind::Directory), VisitAction::Descend("/h/sessions/2026".into()));
    assert_eq!(
        visit_action("/h/sessions/a.jsonl".into(), EntryKind::File { jsonl: true }),
        VisitAction::Collect("/h/sessions/a.jsonl".into())
    );
    assert_eq!(visit_action("/h/sessions/a.txt".into(), EntryKind::File { jsonl: false }), VisitAction::Skip);
}

#[test]
fn links_are_followed_only_inside_the_home() {
    let outside = EntryKind::Link {
        target: Some("/elsewhere/a.jsonl".into()),
        inside_home: false,
        target_is_dir: false,
        target_jsonl: true,
    };
    assert_eq!(visit_action("/h/sessions/l".into(), outside), VisitAction::Skip);
    let inside = EntryKind::Link {
        target: Some("/h/archived_sessions/b.jsonl".into()),
        inside_home: true,
        target_is_dir: false,
        target_jsonl: true,
    };
    assert_eq!(visit_action("/h/sessions/l".into(), inside), VisitAction::Collect("/h/archived_sessions/b.jsonl".into()));
    let dangling = EntryKind::Link { target: None, inside_home: false, target_is_dir: false, target_jsonl: false };
    assert_eq!(visit_action("/h/sessions/d".into(), dangling), VisitAction::Skip);
}

#[test]
fn found_logs_are_sorted_in_path_order_each_once() {
    let found: Vec<String> = vec!["/h/s/b.jsonl".into(), "/h/s-x/a.jsonl".into(), "/h/s/a.jsonl".into(), "/h/s/b.jsonl".into()];
    assert_eq!(
        collected_files(found),
        vec!["/h/s/a.jsonl".to_string(), "/h/s/b.jsonl".into(), "/h/s-x/a.jsonl".into()]
    );
}
