use fuzzy_picker::cancel::CancellationToken;
use fuzzy_picker::directory_context_picker::{
    DirectoryContextPicker, DirectoryContextPickerDelegate, PathMatch, WorktreeSnapshot,
};
use fuzzy_picker::picker::{
    after_insertion, clamp_selection, AfterConfirm, ConfirmBehavior, ContextKind, Handle, QueryClock,
};
use fuzzy_picker::thread_context_picker::{
    thread_text, Message, Role, ThreadContextEntry, ThreadContextPicker,
    ThreadContextPickerDelegate,
};

fn handle(id: u64) -> Handle {
    Handle { id }
}

fn worktree(id: usize, root: &str, dirs: &[&str]) -> WorktreeSnapshot {
    WorktreeSnapshot {
        id,
        root_name: root.to_string(),
        directories: dirs.iter().map(|d| d.to_string()).collect(),
    }
}

fn path_match(path: &str) -> PathMatch {
    PathMatch {
        score: 0,
        positions: Vec::new(),
        worktree_id: 1,
        path: path.to_string(),
        path_prefix: "root".to_string(),
        distance_to_relative_ancestor: 0,
        is_dir: true,
    }
}

fn directory_delegate(behavior: ConfirmBehavior) -> DirectoryContextPickerDelegate {
    DirectoryContextPickerDelegate::new(handle(1), handle(2), handle(3), behavior)
}

fn thread_delegate(behavior: ConfirmBehavior) -> ThreadContextPickerDelegate {
    ThreadContextPickerDelegate::new(handle(1), handle(2), handle(3), behavior)
}

fn entry(id: &str, summary: &str) -> ThreadContextEntry {
    ThreadContextEntry::new(id.to_string(), Some(summary.to_string()))
}

fn shown_paths(delegate: &DirectoryContextPickerDelegate) -> Vec<String> {
    (0..delegate.match_count())
        .map(|ix| delegate.render_match(ix, false).unwrap().label)
        .collect()
}

fn shown_summaries(delegate: &ThreadContextPickerDelegate) -> Vec<String> {
    (0..delegate.match_count())
        .map(|ix| delegate.render_match(ix, false).unwrap().label)
        .collect()
}

#[test]
fn a_new_directory_delegate_shows_nothing() {
    let delegate = directory_delegate(ConfirmBehavior::KeepOpen);
    assert_eq!(delegate.match_count(), 0);
    assert_eq!(delegate.selected_index(), 0);
    assert!(delegate.confirm().is_none());
    assert_eq!(delegate.placeholder_text(), "Search folders…");
    assert_eq!(delegate.dismissed(), handle(1));
    assert_eq!(delegate.workspace(), handle(2));
    assert_eq!(delegate.context_store(), handle(3));
}

#[test]
fn directory_search_ranks_all_worktrees_together() {
    let delegate = directory_delegate(ConfirmBehavior::KeepOpen);
    let worktrees = vec![
        worktree(7, "alpha", &["", "docs", "src/app"]),
        worktree(9, "beta", &["", "app"]),
    ];
    let found = delegate.search("app", &worktrees, &CancellationToken::new());
    let seen: Vec<(usize, &str, &str)> = found
        .iter()
        .map(|m| (m.worktree_id, m.path.as_str(), m.path_prefix.as_str()))
        .collect();
    assert_eq!(seen, vec![(9, "app", "beta"), (7, "src/app", "alpha")]);
    assert!(found.iter().all(|m| m.is_dir && m.score > 0));
    assert_eq!(found[0].positions, vec![0, 1, 2]);
    assert_eq!(found[1].positions, vec![4, 5, 6]);
    assert_eq!(found[0].score, 72);
    assert_eq!(found[1].score, 68);
}

#[test]
fn directory_search_with_the_empty_query_lists_every_directory() {
    let delegate = directory_delegate(ConfirmBehavior::KeepOpen);
    let worktrees = vec![worktree(7, "alpha", &["", "docs"]), worktree(9, "beta", &["lib"])];
    let found = delegate.search("", &worktrees, &CancellationToken::new());
    let seen: Vec<(usize, &str)> = found.iter().map(|m| (m.worktree_id, m.path.as_str())).collect();
    assert_eq!(seen, vec![(7, ""), (7, "docs"), (9, "lib")]);
    assert!(found.iter().all(|m| m.score == 0 && m.positions.is_empty()));
    assert!(found.iter().all(|m| m.distance_to_relative_ancestor == 0));
}

#[test]
fn directory_search_stops_at_one_hundred() {
    let delegate = directory_delegate(ConfirmBehavior::KeepOpen);
    let dirs: Vec<String> = (0..150).map(|i| format!("dir{}", i)).collect();
    let worktrees =
        vec![WorktreeSnapshot { id: 1, root_name: "root".to_string(), directories: dirs }];
    assert_eq!(delegate.search("", &worktrees, &CancellationToken::new()).len(), 100);
    assert_eq!(delegate.search("dir", &worktrees, &CancellationToken::new()).len(), 100);
}

#[test]
fn update_matches_drops_the_empty_path() {
    let mut delegate = directory_delegate(ConfirmBehavior::KeepOpen);
    delegate.update_matches(vec![path_match(""), path_match("docs"), path_match(""), path_match("src")]);
    assert_eq!(shown_paths(&delegate), vec!["docs", "src"]);
    assert_eq!(delegate.selected_index(), 0);
}

#[test]
fn the_selection_is_clamped_to_the_matches() {
    let mut delegate = directory_delegate(ConfirmBehavior::KeepOpen);
    delegate.set_selected_index(5);
    assert_eq!(delegate.selected_index(), 0);
    delegate.update_matches(vec![path_match("a"), path_match("b"), path_match("c")]);
    delegate.set_selected_index(1);
    assert_eq!(delegate.selected_index(), 1);
    delegate.set_selected_index(3);
    assert_eq!(delegate.selected_index(), 2);
    delegate.update_matches(vec![path_match("a"), path_match("b")]);
    assert_eq!(delegate.selected_index(), 1);
    delegate.update_matches(Vec::new());
    assert_eq!(delegate.selected_index(), 0);
    assert_eq!(clamp_selection(0, 0), 0);
    assert_eq!(clamp_selection(9, 4), 3);
    assert_eq!(clamp_selection(2, 4), 2);
}

#[test]
fn confirming_a_directory_inserts_its_path_without_text() {
    let mut delegate = directory_delegate(ConfirmBehavior::Close);
    delegate.update_matches(vec![path_match("docs"), path_match("src")]);
    delegate.set_selected_index(1);
    let insertion = delegate.confirm().unwrap();
    assert_eq!(insertion.kind, ContextKind::Directory);
    assert_eq!(insertion.label, "src");
    assert_eq!(insertion.text, "");
}

#[test]
fn a_picker_closes_only_when_told_to_and_the_insertion_went_in() {
    assert_eq!(after_insertion(ConfirmBehavior::Close, true), AfterConfirm::Dismiss);
    assert_eq!(after_insertion(ConfirmBehavior::Close, false), AfterConfirm::StayOpen);
    assert_eq!(after_insertion(ConfirmBehavior::KeepOpen, true), AfterConfirm::StayOpen);
    assert_eq!(after_insertion(ConfirmBehavior::KeepOpen, false), AfterConfirm::StayOpen);
    assert_eq!(directory_delegate(ConfirmBehavior::Close).confirmed(true), AfterConfirm::Dismiss);
    assert_eq!(thread_delegate(ConfirmBehavior::KeepOpen).confirmed(true), AfterConfirm::StayOpen);
    assert_eq!(thread_delegate(ConfirmBehavior::Close).confirmed(false), AfterConfirm::StayOpen);
}

#[test]
fn rendering_a_directory_match_labels_it_with_its_path() {
    let mut delegate = directory_delegate(ConfirmBehavior::KeepOpen);
    delegate.update_matches(vec![path_match("docs"), path_match("src")]);
    let item = delegate.render_match(1, true).unwrap();
    assert_eq!(item.index, 1);
    assert!(item.inset);
    assert!(item.selected);
    assert_eq!(item.label, "src");
}

#[test]
fn the_clock_counts_generations_and_raises_the_old_token() {
    let mut clock = QueryClock::new();
    assert_eq!(clock.latest(), 0);
    assert!(!clock.admits(0));
    let (first, first_token) = clock.begin();
    assert_eq!(first, 1);
    assert!(clock.admits(1));
    assert!(!first_token.is_raised());
    let (second, second_token) = clock.begin();
    assert_eq!(second, 2);
    assert!(first_token.is_raised());
    assert!(!second_token.is_raised());
    assert!(!clock.admits(1));
    assert!(clock.admits(2));
    assert!(!clock.admits(3));
}

#[test]
fn the_later_directory_query_wins_when_it_arrives_last() {
    let mut picker =
        DirectoryContextPicker::new(handle(1), handle(2), handle(3), ConfirmBehavior::KeepOpen);
    let (t1, _) = picker.begin_query();
    let (t2, _) = picker.begin_query();
    assert!(!picker.complete(t1, vec![path_match("old")]));
    assert_eq!(picker.delegate().match_count(), 0);
    assert!(picker.complete(t2, vec![path_match("new")]));
    assert_eq!(shown_paths(picker.delegate()), vec!["new"]);
}

#[test]
fn the_later_directory_query_wins_when_it_arrives_first() {
    let mut picker =
        DirectoryContextPicker::new(handle(1), handle(2), handle(3), ConfirmBehavior::KeepOpen);
    let (t1, _) = picker.begin_query();
    let (t2, _) = picker.begin_query();
    assert!(picker.complete(t2, vec![path_match("new")]));
    assert!(!picker.complete(t1, vec![path_match("old")]));
    assert_eq!(shown_paths(picker.delegate()), vec!["new"]);
}

#[test]
fn the_later_thread_query_wins_in_either_order() {
    let mut picker =
        ThreadContextPicker::new(handle(1), handle(2), handle(3), ConfirmBehavior::KeepOpen);
    let (t1, token1) = picker.begin_query();
    let (t2, _) = picker.begin_query();
    assert!(token1.is_raised());
    assert!(picker.complete(t2, vec![entry("b", "new")]));
    assert!(!picker.complete(t1, vec![entry("a", "old")]));
    assert_eq!(shown_summaries(picker.delegate()), vec!["new"]);

    let mut picker =
        ThreadContextPicker::new(handle(1), handle(2), handle(3), ConfirmBehavior::KeepOpen);
    let (t1, _) = picker.begin_query();
    let (t2, _) = picker.begin_query();
    assert!(!picker.complete(t1, vec![entry("a", "old")]));
    assert!(picker.complete(t2, vec![entry("b", "new")]));
    assert_eq!(shown_summaries(picker.delegate()), vec!["new"]);
}

#[test]
fn a_picker_keeps_its_selection_in_range() {
    let mut picker =
        DirectoryContextPicker::new(handle(1), handle(2), handle(3), ConfirmBehavior::KeepOpen);
    let (t1, _) = picker.begin_query();
    picker.complete(t1, vec![path_match("a"), path_match("b"), path_match("c")]);
    picker.set_selected_index(2);
    assert_eq!(picker.delegate().selected_index(), 2);
    let (t2, _) = picker.begin_query();
    assert_eq!(picker.delegate().selected_index(), 2);
    picker.complete(t2, vec![path_match("a")]);
    assert_eq!(picker.delegate().selected_index(), 0);
}

#[test]
fn a_thread_without_summary_is_a_new_thread() {
    let named = ThreadContextEntry::new("t1".to_string(), Some("Refactor".to_string()));
    let unnamed = ThreadContextEntry::new("t2".to_string(), None);
    assert_eq!(named.summary, "Refactor");
    assert_eq!(unnamed.summary, "New Thread");
    assert_eq!(unnamed.id, "t2");
}

#[test]
fn thread_search_returns_the_matched_entries() {
    let delegate = thread_delegate(ConfirmBehavior::KeepOpen);
    let threads = vec![entry("1", "apple"), entry("2", "apricot"), entry("3", "banana")];
    let found = delegate.search("ap", &threads, &CancellationToken::new());
    let ids: Vec<&str> = found.iter().map(|e| e.id.as_str()).collect();
    assert_eq!(ids, vec!["1", "2"]);
    let found = delegate.search("an", &threads, &CancellationToken::new());
    let ids: Vec<&str> = found.iter().map(|e| e.id.as_str()).collect();
    assert_eq!(ids, vec!["3"]);
    let found = delegate.search("", &threads, &CancellationToken::new());
    let ids: Vec<&str> = found.iter().map(|e| e.id.as_str()).collect();
    assert_eq!(ids, vec!["1", "2", "3"]);
    assert!(delegate.search("zz", &threads, &CancellationToken::new()).is_empty());
}

#[test]
fn thread_update_matches_selects_the_first_entry() {
    let mut delegate = thread_delegate(ConfirmBehavior::KeepOpen);
    assert_eq!(delegate.placeholder_text(), "Search threads…");
    delegate.update_matches(vec![entry("1", "one"), entry("2", "two")]);
    delegate.set_selected_index(1);
    assert_eq!(delegate.selected_index(), 1);
    delegate.update_matches(vec![entry("3", "three"), entry("4", "four")]);
    assert_eq!(delegate.selected_index(), 0);
    assert_eq!(delegate.match_count(), 2);
    assert_eq!(delegate.thread_store(), handle(1));
    assert_eq!(delegate.dismissed(), handle(2));
    assert_eq!(delegate.context_store(), handle(3));
}

#[test]
fn confirming_a_thread_inserts_its_transcript() {
    let mut delegate = thread_delegate(ConfirmBehavior::Close);
    assert!(delegate.confirm().is_none());
    delegate.update_matches(vec![entry("1", "one"), entry("2", "two")]);
    delegate.set_selected_index(1);
    let selected = delegate.confirm().unwrap();
    assert_eq!(selected.id, "2");
    let messages = vec![
        Message { role: Role::User, text: "hi".to_string() },
        Message { role: Role::Assistant, text: "hello\nthere".to_string() },
        Message { role: Role::System, text: String::new() },
    ];
    let insertion = ThreadContextPickerDelegate::insertion(&selected, &messages);
    assert_eq!(insertion.kind, ContextKind::Thread);
    assert_eq!(insertion.label, "two");
    assert_eq!(insertion.text, "User:\nhi\nAssistant:\nhello\nthere\nSystem:\n\n");
    assert_eq!(thread_text(&Vec::new()), "");
}
