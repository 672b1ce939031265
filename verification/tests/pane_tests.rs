use phosphor_fm::entry::{EntryMeta, FileEntry, SortMode};
use phosphor_fm::pane::{DirListing, Pane};

fn entry(dir: &str, name: &str, is_dir: bool, len: u64) -> FileEntry {
    FileEntry::from_path(
        format!("{}/{}", dir, name),
        name.to_string(),
        EntryMeta { is_dir, is_symlink: false, permissions: 0o644, len, modified: None, owner_uid: 0 },
    )
}

fn listing(dir: &str, items: &[(&str, bool, u64)]) -> DirListing {
    DirListing {
        path: dir.to_string(),
        entries: items.iter().map(|(n, d, l)| entry(dir, n, *d, *l)).collect(),
    }
}

fn home() -> DirListing {
    listing(
        "/home/u",
        &[("notes.txt", false, 10), (".hidden", false, 1), ("src", true, 0), ("Build.rs", false, 300), ("readme.md", false, 20)],
    )
}

fn names(p: &Pane) -> Vec<String> {
    p.entries.iter().map(|e| e.name.clone()).collect()
}

#[test]
fn new_pane_hides_hidden_and_sorts_by_name() {
    let p = Pane::new(home());
    assert_eq!(p.path, "/home/u");
    assert_eq!(names(&p), vec!["src", "Build.rs", "notes.txt", "readme.md"]);
    assert_eq!(p.cursor, 0);
    assert_eq!(p.scroll_offset, 0);
    assert!(!p.show_hidden);
    assert_eq!(p.sort_mode, SortMode::Name);
    assert_eq!(p.file_count(), 4);
    assert_eq!(p.selected_count(), 0);
}

#[test]
fn filter_is_case_insensitive_substring() {
    let mut p = Pane::new(home());
    p.filter = "RE".to_string();
    let f = p.filtered_entries();
    let got: Vec<(usize, String)> = f.iter().map(|(i, e)| (*i, e.name.clone())).collect();
    assert_eq!(got, vec![(3, "readme.md".to_string())]);
    p.filter = "s".to_string();
    let idx: Vec<usize> = p.filtered_entries().iter().map(|(i, _)| *i).collect();
    assert_eq!(idx, vec![0, 1, 2]);
    p.filter = String::new();
    assert_eq!(p.filtered_entries().len(), 4);
}

#[test]
fn current_entry_follows_cursor_in_filtered_view() {
    let mut p = Pane::new(home());
    assert_eq!(p.current_entry().unwrap().name, "src");
    p.filter = "md".to_string();
    assert_eq!(p.current_entry().unwrap().name, "readme.md");
    p.cursor = 1;
    assert!(p.current_entry().is_none());
}

#[test]
fn move_cursor_clamps() {
    let mut p = Pane::new(home());
    p.move_cursor(1);
    assert_eq!(p.cursor, 1);
    p.move_cursor(20);
    assert_eq!(p.cursor, 3);
    p.move_cursor(-2);
    assert_eq!(p.cursor, 1);
    p.move_cursor(-20);
    assert_eq!(p.cursor, 0);
    p.filter = "zzz".to_string();
    p.cursor = 2;
    p.move_cursor(1);
    assert_eq!(p.cursor, 0);
}

#[test]
fn ensure_visible_scrolls_minimally() {
    let mut p = Pane::new(home());
    p.cursor = 3;
    p.ensure_visible(2);
    assert_eq!(p.scroll_offset, 2);
    p.cursor = 0;
    p.ensure_visible(2);
    assert_eq!(p.scroll_offset, 0);
    p.scroll_offset = 7;
    p.ensure_visible(0);
    assert_eq!(p.scroll_offset, 7);
    p.cursor = 8;
    p.ensure_visible(3);
    assert_eq!(p.scroll_offset, 7);
}

#[test]
fn toggle_select_twice_restores() {
    let mut p = Pane::new(home());
    p.cursor = 2;
    p.toggle_select();
    assert!(p.selected.contains(&2));
    assert_eq!(p.selected_count(), 1);
    p.toggle_select();
    assert_eq!(p.selected_count(), 0);
    p.filter = "md".to_string();
    p.cursor = 0;
    p.toggle_select();
    assert!(p.selected.contains(&3));
}

#[test]
fn select_all_twice_clears() {
    let mut p = Pane::new(home());
    p.select_all();
    assert_eq!(p.selected_count(), 4);
    p.select_all();
    assert_eq!(p.selected_count(), 0);
    p.filter = "e".to_string();
    p.select_all();
    let mut sel: Vec<usize> = p.selected.iter().cloned().collect();
    sel.sort();
    assert_eq!(sel, vec![2, 3]);
}

#[test]
fn selected_and_action_entries() {
    let mut p = Pane::new(home());
    p.cursor = 1;
    let acts = p.action_entries();
    assert_eq!(acts.len(), 1);
    assert_eq!(acts[0].name, "Build.rs");
    p.selected.insert(0);
    p.selected.insert(3);
    p.selected.insert(99);
    let mut sel: Vec<String> = p.selected_entries().iter().map(|e| e.name.clone()).collect();
    sel.sort();
    assert_eq!(sel, vec!["readme.md", "src"]);
    assert_eq!(p.action_entries().len(), 2);
    p.selected.clear();
    p.selected.insert(50);
    let acts = p.action_entries();
    assert_eq!(acts.len(), 1);
    assert_eq!(acts[0].name, "Build.rs");
    p.filter = "zzz".to_string();
    assert!(p.action_entries().is_empty());
}

#[test]
fn reload_keeps_cursor_within_listing() {
    let mut p = Pane::new(home());
    p.cursor = 3;
    p.selected.insert(1);
    p.filter = "x".to_string();
    p.reload(listing("/home/u", &[("a", false, 1), ("b", false, 1)]));
    assert_eq!(p.cursor, 1);
    assert_eq!(p.selected_count(), 0);
    assert_eq!(p.filter, "");
    p.reload(listing("/home/u", &[]));
    assert_eq!(p.cursor, 0);
}

#[test]
fn toggle_hidden_and_cycle_sort_reload() {
    let mut p = Pane::new(home());
    p.toggle_hidden(home());
    assert!(p.show_hidden);
    assert_eq!(names(&p), vec!["src", ".hidden", "Build.rs", "notes.txt", "readme.md"]);
    p.cycle_sort(home());
    assert_eq!(p.sort_mode, SortMode::Size);
    assert_eq!(names(&p), vec!["src", "Build.rs", "readme.md", "notes.txt", ".hidden"]);
}

#[test]
fn enter_dir_only_for_directories() {
    let mut p = Pane::new(home());
    assert_eq!(p.enter_target(), Some("/home/u/src".to_string()));
    p.enter_dir(listing("/home/u/src", &[("main.rs", false, 5)]));
    assert_eq!(p.path, "/home/u/src");
    assert_eq!(names(&p), vec!["main.rs"]);
    assert_eq!(p.enter_target(), None);
    p.enter_dir(listing("/elsewhere", &[]));
    assert_eq!(p.path, "/home/u/src");
}

#[test]
fn go_parent_lands_on_directory_left() {
    let mut p = Pane::new(listing("/home/u/src", &[("main.rs", false, 5)]));
    assert_eq!(p.parent_target(), Some("/home/u".to_string()));
    p.go_parent(home());
    assert_eq!(p.path, "/home/u");
    assert_eq!(p.cursor, 0);
    let mut q = Pane::new(listing("/home/u/readme.md", &[]));
    q.go_parent(home());
    assert_eq!(q.cursor, 3);
    let mut r = Pane::new(listing("/home/u/gone", &[]));
    r.go_parent(home());
    assert_eq!(r.cursor, 0);
    let mut root = Pane::new(listing("/", &[("etc", true, 0)]));
    assert_eq!(root.parent_target(), None);
    root.go_parent(home());
    assert_eq!(root.path, "/");
}

#[test]
fn go_home_without_home_keeps_pane() {
    let mut p = Pane::new(listing("/tmp", &[("x", false, 1)]));
    p.go_home(None);
    assert_eq!(p.path, "/tmp");
    p.go_home(Some(home()));
    assert_eq!(p.path, "/home/u");
}

#[test]
fn listing_duplicate_is_equal() {
    let l = home();
    let d = l.duplicate();
    assert_eq!(d.path, l.path);
    assert_eq!(d.entries.len(), l.entries.len());
    assert_eq!(d.entries[4].name, "readme.md");
}

#[test]
fn toggle_hidden_twice_restores_listing() {
    let mut p = Pane::new(home());
    p.cycle_sort(home());
    let before = names(&p);
    let path = p.path.clone();
    p.toggle_hidden(home());
    assert!(p.show_hidden);
    assert_eq!(names(&p), vec!["src", "Build.rs", "readme.md", "notes.txt", ".hidden"]);
    p.toggle_hidden(home());
    assert!(!p.show_hidden);
    assert_eq!(p.sort_mode, SortMode::Size);
    assert_eq!(p.path, path);
    assert_eq!(names(&p), before);
}

#[test]
fn enter_then_parent_returns() {
    let mut p = Pane::new(home());
    p.cursor = 0;
    let before = names(&p);
    let e = p.current_entry().unwrap().name.clone();
    assert_eq!(e, "src");
    p.enter_dir(listing("/home/u/src", &[("main.rs", false, 5)]));
    assert_eq!(p.path, "/home/u/src");
    p.go_parent(home());
    assert_eq!(p.path, "/home/u");
    assert_eq!(names(&p), before);
    assert_eq!(p.current_entry().unwrap().name, e);
}

#[test]
fn select_all_selects_shown_when_hidden_one_selected() {
    let mut p = Pane::new(home());
    // names in order: src, Build.rs, notes.txt, readme.md
    p.cursor = 0;
    p.toggle_select();
    assert!(p.selected.contains(&0));
    p.filter = "readme".to_string();
    assert_eq!(p.filtered_entries().len(), 1);
    p.select_all();
    let mut sel: Vec<usize> = p.selected.iter().cloned().collect();
    sel.sort();
    assert_eq!(sel, vec![3]);
    p.select_all();
    assert_eq!(p.selected_count(), 0);
    p.select_all();
    let mut again: Vec<usize> = p.selected.iter().cloned().collect();
    again.sort();
    assert_eq!(again, vec![3]);
}

#[test]
fn select_all_from_partial_selection() {
    let mut p = Pane::new(listing("/d", &[("a", false, 1), ("b", false, 1), ("c", false, 1)]));
    p.cursor = 1;
    p.toggle_select();
    p.select_all();
    let mut sel: Vec<usize> = p.selected.iter().cloned().collect();
    sel.sort();
    assert_eq!(sel, vec![0, 1, 2]);
    p.select_all();
    assert_eq!(p.selected_count(), 0);
}
