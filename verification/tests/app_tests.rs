use phosphor_fm::app::{ActivePane, App, InputMode, RightMode};
use phosphor_fm::entry::{EntryMeta, FileEntry};
use phosphor_fm::input::{
    batch_status_text, finish_create_dir, finish_create_file, finish_delete, finish_go_path,
    finish_rename, finish_transfer, handle_confirm_delete, handle_go_path, handle_key,
    handle_new_dir, handle_new_file, handle_normal, handle_rename, handle_search, Key, KeyPress,
    Request, TransferKind,
};
use phosphor_fm::pane::DirListing;

fn entry(dir: &str, name: &str, is_dir: bool) -> FileEntry {
    FileEntry::from_path(
        format!("{}/{}", dir, name),
        name.to_string(),
        EntryMeta { is_dir, is_symlink: false, permissions: 0o644, len: 1, modified: None, owner_uid: 0 },
    )
}

fn listing(dir: &str, items: &[(&str, bool)]) -> DirListing {
    DirListing { path: dir.to_string(), entries: items.iter().map(|(n, d)| entry(dir, n, *d)).collect() }
}

fn start() -> App {
    App::new(listing("/w", &[("alpha", false), ("beta", false), ("docs", true), ("gamma", false)]))
}

fn key(k: Key) -> KeyPress {
    KeyPress { key: k, ctrl: false }
}

fn ch(c: char) -> KeyPress {
    key(Key::Char(c))
}

#[test]
fn new_app_shows_same_directory_twice() {
    let a = start();
    assert_eq!(a.left.path, "/w");
    assert_eq!(a.right.path, "/w");
    assert_eq!(a.left.entries.len(), 4);
    assert_eq!(a.right.entries[0].name, "docs");
    assert_eq!(a.active, ActivePane::Left);
    assert_eq!(a.right_mode, RightMode::Directory);
    assert_eq!(a.input_mode, InputMode::Normal);
    assert!(!a.should_quit);
    assert!(a.progress.is_none());
}

#[test]
fn toggle_pane_and_preview() {
    let mut a = start();
    a.toggle_pane();
    assert_eq!(a.active, ActivePane::Right);
    assert_eq!(a.other_pane().path, "/w");
    a.toggle_pane();
    assert_eq!(a.active, ActivePane::Left);
    a.toggle_pane();
    a.toggle_preview();
    assert_eq!(a.right_mode, RightMode::Preview);
    assert_eq!(a.active, ActivePane::Left);
    a.toggle_pane();
    assert_eq!(a.active, ActivePane::Left);
    a.toggle_preview();
    assert_eq!(a.right_mode, RightMode::Directory);
}

#[test]
fn start_modes() {
    let mut a = start();
    a.input_buffer = "junk".to_string();
    a.start_search();
    assert_eq!(a.input_mode, InputMode::Search);
    assert_eq!(a.input_buffer, "");
    a.start_go_path();
    assert_eq!(a.input_mode, InputMode::GoPath);
    assert_eq!(a.input_buffer, "/w");
    a.start_new_file();
    assert_eq!((a.input_mode, a.input_buffer.as_str()), (InputMode::NewFile, ""));
    a.start_new_dir();
    assert_eq!(a.input_mode, InputMode::NewDir);
    a.input_mode = InputMode::Normal;
    a.start_rename();
    assert_eq!(a.input_mode, InputMode::Rename);
    assert_eq!(a.input_buffer, "docs");
}

#[test]
fn start_rename_without_entry_does_nothing() {
    let mut a = App::new(listing("/empty", &[]));
    a.start_rename();
    assert_eq!(a.input_mode, InputMode::Normal);
    assert_eq!(a.input_buffer, "");
}

#[test]
fn delete_prompts() {
    let mut a = start();
    a.start_delete_confirm();
    assert_eq!(a.status_msg, "Delete 'docs'? [y/N]");
    assert_eq!(a.input_mode, InputMode::ConfirmDelete);
    let mut b = start();
    b.active_pane_mut().selected.insert(1);
    b.active_pane_mut().selected.insert(2);
    b.start_delete_confirm();
    assert_eq!(b.status_msg, "Delete 2 items? [y/N]");
    let mut c = App::new(listing("/empty", &[]));
    c.start_delete_confirm();
    assert_eq!(c.status_msg, "Nothing to delete");
    assert_eq!(c.input_mode, InputMode::Normal);
}

#[test]
fn cancel_input_clears_everything() {
    let mut a = start();
    a.input_mode = InputMode::Search;
    a.input_buffer = "al".to_string();
    a.active_pane_mut().filter = "al".to_string();
    a.set_status("busy".to_string());
    a.cancel_input();
    assert_eq!(a.input_mode, InputMode::Normal);
    assert_eq!(a.input_buffer, "");
    assert_eq!(a.active_pane().filter, "");
    assert_eq!(a.status_msg, "");
}

#[test]
fn normal_keys_move_and_quit() {
    let mut a = start();
    assert!(matches!(handle_normal(&mut a, ch('j')), Request::Nothing));
    assert_eq!(a.left.cursor, 1);
    handle_normal(&mut a, key(Key::Down));
    handle_normal(&mut a, key(Key::Up));
    assert_eq!(a.left.cursor, 1);
    handle_normal(&mut a, ch('G'));
    assert_eq!(a.left.cursor, 3);
    handle_normal(&mut a, key(Key::PageUp));
    assert_eq!(a.left.cursor, 0);
    handle_normal(&mut a, key(Key::PageDown));
    assert_eq!(a.left.cursor, 3);
    handle_normal(&mut a, ch('k'));
    assert_eq!(a.left.cursor, 2);
    handle_normal(&mut a, KeyPress { key: Key::Char('c'), ctrl: true });
    assert!(a.should_quit);
    let mut b = start();
    handle_normal(&mut b, ch('q'));
    assert!(b.should_quit);
}

#[test]
fn normal_keys_ask_for_file_system_work() {
    let mut a = start();
    match handle_normal(&mut a, key(Key::Enter)) {
        Request::EnterDir(p) => assert_eq!(p, "/w/docs"),
        _ => panic!("expected a directory to enter"),
    }
    match handle_normal(&mut a, key(Key::Backspace)) {
        Request::GoParent(p) => assert_eq!(p, "/"),
        _ => panic!("expected a parent"),
    }
    assert!(matches!(handle_normal(&mut a, ch('~')), Request::GoHome));
    match handle_normal(&mut a, ch('.')) {
        Request::ToggleHidden(p) => assert_eq!(p, "/w"),
        _ => panic!("expected a reload"),
    }
    match handle_normal(&mut a, ch('s')) {
        Request::CycleSort(p) => assert_eq!(p, "/w"),
        _ => panic!("expected a reload"),
    }
    a.left.cursor = 1;
    assert!(matches!(handle_normal(&mut a, key(Key::Enter)), Request::Nothing));
    match handle_normal(&mut a, ch('c')) {
        Request::Transfer { kind, sources, dest } => {
            assert_eq!(kind, TransferKind::Copy);
            assert_eq!(sources.len(), 1);
            assert_eq!(sources[0].name, "alpha");
            assert_eq!(dest, "/w");
        }
        _ => panic!("expected a copy"),
    }
    match handle_normal(&mut a, ch('m')) {
        Request::Transfer { kind, .. } => assert_eq!(kind, TransferKind::Move),
        _ => panic!("expected a move"),
    }
}

#[test]
fn copy_with_nothing_says_so() {
    let mut a = App::new(listing("/empty", &[]));
    assert!(matches!(handle_normal(&mut a, ch('c')), Request::Nothing));
    assert_eq!(a.status_msg, "Nothing to copy");
    assert!(matches!(handle_normal(&mut a, ch('m')), Request::Nothing));
    assert_eq!(a.status_msg, "Nothing to move");
}

#[test]
fn normal_keys_change_views() {
    let mut a = start();
    handle_normal(&mut a, ch(' '));
    assert!(a.left.selected.contains(&0));
    assert_eq!(a.left.cursor, 1);
    handle_normal(&mut a, ch('a'));
    assert_eq!(a.left.selected.len(), 4);
    handle_normal(&mut a, key(Key::Tab));
    assert_eq!(a.active, ActivePane::Right);
    handle_normal(&mut a, ch('p'));
    assert_eq!(a.right_mode, RightMode::Preview);
    assert_eq!(a.active, ActivePane::Left);
    a.set_status("x".to_string());
    handle_normal(&mut a, key(Key::Esc));
    assert_eq!(a.status_msg, "");
    handle_normal(&mut a, ch('/'));
    assert_eq!(a.input_mode, InputMode::Search);
}

#[test]
fn search_typing_filters_and_esc_drops() {
    let mut a = start();
    a.start_search();
    a.left.cursor = 2;
    handle_search(&mut a, ch('A'));
    handle_search(&mut a, ch('m'));
    assert_eq!(a.input_buffer, "Am");
    assert_eq!(a.left.filter, "Am");
    assert_eq!(a.left.cursor, 0);
    assert_eq!(a.left.filtered_entries().len(), 1);
    handle_search(&mut a, key(Key::Backspace));
    assert_eq!(a.left.filter, "A");
    handle_search(&mut a, key(Key::Enter));
    assert_eq!(a.input_mode, InputMode::Normal);
    assert_eq!(a.left.filter, "A");
    a.input_mode = InputMode::Search;
    handle_search(&mut a, key(Key::Esc));
    assert_eq!(a.left.filter, "");
    assert_eq!(a.input_buffer, "");
    a.input_mode = InputMode::Search;
    handle_search(&mut a, key(Key::Backspace));
    assert_eq!(a.input_buffer, "");
}

#[test]
fn go_path_flow() {
    let mut a = start();
    a.start_go_path();
    handle_go_path(&mut a, key(Key::Backspace));
    handle_go_path(&mut a, ch('x'));
    match handle_go_path(&mut a, key(Key::Enter)) {
        Request::GoPath(p) => assert_eq!(p, "/x"),
        _ => panic!("expected a path"),
    }
    finish_go_path(&mut a, None);
    assert_eq!(a.status_msg, "Not a directory: /x");
    assert_eq!(a.input_mode, InputMode::Normal);
    a.start_go_path();
    a.input_buffer = "/t".to_string();
    finish_go_path(&mut a, Some(listing("/t", &[("f", false)])));
    assert_eq!(a.status_msg, "Navigated to /t");
    assert_eq!(a.left.path, "/t");
    assert_eq!(a.input_buffer, "");
    a.input_mode = InputMode::GoPath;
    handle_go_path(&mut a, key(Key::Esc));
    assert_eq!(a.input_mode, InputMode::Normal);
}

#[test]
fn rename_flow() {
    let mut a = start();
    a.start_rename();
    handle_rename(&mut a, ch('2'));
    match handle_rename(&mut a, key(Key::Enter)) {
        Request::Rename { path, new_name } => {
            assert_eq!(path, "/w/docs");
            assert_eq!(new_name, "docs2");
        }
        _ => panic!("expected a rename"),
    }
    finish_rename(&mut a, Err("Permission denied".to_string()));
    assert_eq!(a.status_msg, "Rename failed: Permission denied");
    assert_eq!(a.input_mode, InputMode::Normal);
    a.start_rename();
    a.input_buffer = "d2".to_string();
    finish_rename(&mut a, Ok(listing("/w", &[("d2", true)])));
    assert_eq!(a.status_msg, "Renamed to 'd2'");
    assert_eq!(a.left.entries[0].name, "d2");
    let mut e = App::new(listing("/empty", &[]));
    e.input_mode = InputMode::Rename;
    e.input_buffer = "x".to_string();
    assert!(matches!(handle_rename(&mut e, key(Key::Enter)), Request::Nothing));
    assert_eq!(e.input_mode, InputMode::Normal);
    assert_eq!(e.input_buffer, "");
}

#[test]
fn create_flows() {
    let mut a = start();
    a.start_new_file();
    handle_new_file(&mut a, ch('n'));
    match handle_new_file(&mut a, key(Key::Enter)) {
        Request::CreateFile { dir, name } => assert_eq!((dir.as_str(), name.as_str()), ("/w", "n")),
        _ => panic!("expected a file"),
    }
    finish_create_file(&mut a, Ok(listing("/w", &[("n", false)])));
    assert_eq!(a.status_msg, "Created file 'n'");
    a.start_new_dir();
    handle_new_dir(&mut a, ch('d'));
    match handle_new_dir(&mut a, key(Key::Enter)) {
        Request::CreateDir { dir, name } => assert_eq!((dir.as_str(), name.as_str()), ("/w", "d")),
        _ => panic!("expected a directory"),
    }
    finish_create_dir(&mut a, Err("File exists (os error 17)".to_string()));
    assert_eq!(a.status_msg, "Create directory failed: File exists (os error 17)");
    a.start_new_file();
    finish_create_file(&mut a, Err("boom".to_string()));
    assert_eq!(a.status_msg, "Create file failed: boom");
    a.start_new_dir();
    a.input_buffer = "z".to_string();
    finish_create_dir(&mut a, Ok(listing("/w", &[])));
    assert_eq!(a.status_msg, "Created directory 'z'");
}

#[test]
fn confirm_delete_only_on_y() {
    let mut a = start();
    a.start_delete_confirm();
    handle_confirm_delete(&mut a, ch('n'));
    assert_eq!(a.status_msg, "Delete cancelled");
    assert_eq!(a.input_mode, InputMode::Normal);
    a.start_delete_confirm();
    match handle_confirm_delete(&mut a, ch('Y')) {
        Request::Delete { targets } => {
            assert_eq!(targets.len(), 1);
            let outcomes = vec![Ok(())];
            finish_delete(&mut a, &targets, &outcomes, listing("/w", &[("alpha", false)]));
        }
        _ => panic!("expected a deletion"),
    }
    assert_eq!(a.status_msg, "Deleted 1 item(s)");
    assert_eq!(a.input_mode, InputMode::Normal);
    assert_eq!(a.left.entries.len(), 1);
}

#[test]
fn batch_status_texts() {
    let es = vec![entry("/w", "a", false), entry("/w", "b", false), entry("/w", "c", false)];
    let ok: Vec<Result<(), String>> = vec![Ok(()), Ok(()), Ok(())];
    assert_eq!(batch_status_text("Copied", " to /d", &es, &ok), "Copied 3 item(s) to /d");
    let mixed: Vec<Result<(), String>> = vec![Err("e1".to_string()), Ok(()), Err("e3".to_string())];
    assert_eq!(batch_status_text("Moved", " to /d", &es, &mixed), "Moved 1/3, errors: a: e1, c: e3");
    let none: Vec<FileEntry> = Vec::new();
    assert_eq!(batch_status_text("Deleted", "", &none, &Vec::new()), "Deleted 0 item(s)");
}

#[test]
fn transfer_finish_reloads_both_panes() {
    let mut a = start();
    a.left.selected.insert(0);
    let sources = a.left.action_entries();
    let outcomes = vec![Ok(())];
    finish_transfer(
        &mut a,
        TransferKind::Copy,
        &sources,
        &"/w".to_string(),
        &outcomes,
        listing("/w", &[("x", false)]),
        listing("/w", &[("y", false), ("z", false)]),
    );
    assert_eq!(a.status_msg, "Copied 1 item(s) to /w");
    assert_eq!(a.left.entries.len(), 1);
    assert_eq!(a.right.entries.len(), 2);
    assert_eq!(a.left.selected.len(), 0);
    assert!(a.progress.is_none());
    finish_transfer(
        &mut a,
        TransferKind::Move,
        &sources,
        &"/q".to_string(),
        &vec![Err("denied".to_string())],
        listing("/w", &[]),
        listing("/w", &[]),
    );
    assert_eq!(a.status_msg, "Moved 0/1, errors: docs: denied");
}

#[test]
fn handle_key_dispatches_by_mode() {
    let mut a = start();
    handle_key(&mut a, ch('/'));
    assert_eq!(a.input_mode, InputMode::Search);
    handle_key(&mut a, ch('q'));
    assert!(!a.should_quit);
    assert_eq!(a.input_buffer, "q");
    handle_key(&mut a, key(Key::Enter));
    handle_key(&mut a, ch('q'));
    assert!(a.should_quit);
}

#[test]
fn key_overflow_only_at_the_top_of_the_range() {
    let mut a = start();
    assert!(!phosphor_fm::input::key_overflows(&a, ch('j')));
    a.left.cursor = usize::MAX;
    assert!(phosphor_fm::input::key_overflows(&a, ch('j')));
    assert!(phosphor_fm::input::key_overflows(&a, ch(' ')));
    assert!(!phosphor_fm::input::key_overflows(&a, ch('k')));
    assert!(!phosphor_fm::input::key_overflows(&a, KeyPress { key: Key::Char('c'), ctrl: true }));
    a.left.cursor = usize::MAX - 19;
    assert!(phosphor_fm::input::key_overflows(&a, key(Key::PageDown)));
    a.left.cursor = usize::MAX - 20;
    assert!(!phosphor_fm::input::key_overflows(&a, key(Key::PageDown)));
    a.input_mode = InputMode::Search;
    a.left.cursor = usize::MAX;
    assert!(!phosphor_fm::input::key_overflows(&a, ch('j')));
    let mut e = App::new(listing("/empty", &[]));
    e.left.cursor = usize::MAX;
    assert!(!phosphor_fm::input::key_overflows(&e, ch('j')));
    handle_normal(&mut e, ch('j'));
    assert_eq!(e.left.cursor, 0);
}
