use vstd::prelude::*;

use crate::app::{
    active_of, ActivePane, RightMode, delete_confirm_started, go_path_started, input_cancelled, other_of, pane_toggled,
    preview_toggled, rename_started, typing, with_active, App, InputMode,
};
use crate::entry::FileEntry;
use crate::pane::{
    acts_on, has_valid_selection, lemma_acts_on_empty, all_selection, current_of, cursor_after_move, enters, reloaded, reselected,
    toggled_selection, visible_of, with_cursor, DirListing, Pane,
};
use crate::paths::path_parent;
use crate::text::{
    decimal, join_texts, joined, owned, pop_char, push_char, push_decimal, push_str, texts,
};

verus! {

/// A key as the file manager reads it.
#[derive(Debug, Clone, Copy, PartialEq, Eq, Structural)]
pub enum Key {
    Char(char),
    Enter,
    Esc,
    Backspace,
    Tab,
    Up,
    Down,
    PageUp,
    PageDown,
    Other,
}

/// A key press: the key and whether Control was held.
#[derive(Debug, Clone, Copy, PartialEq, Eq, Structural)]
pub struct KeyPress {
    pub key: Key,
    pub ctrl: bool,
}

/// Copying or moving.
#[derive(Debug, Clone, Copy, PartialEq, Eq, Structural)]
pub enum TransferKind {
    Copy,
    Move,
}

/// Work on the file system that a key asks for; the caller does it and hands
/// the results to the matching `finish_` function or pane method.
#[derive(Debug)]
pub enum Request {
    /// Nothing to do.
    Nothing,
    /// Read this directory and enter it (`Pane::enter_dir` of the focused pane).
    EnterDir(String),
    /// Read this parent directory and go up (`Pane::go_parent` of the focused pane).
    GoParent(String),
    /// Read the home directory, if there is one (`Pane::go_home` of the focused pane).
    GoHome,
    /// Read this directory again and show or hide hidden entries (`Pane::toggle_hidden`).
    ToggleHidden(String),
    /// Read this directory again and sort by the next mode (`Pane::cycle_sort`).
    CycleSort(String),
    /// Read this path if it is a directory (`finish_go_path`).
    GoPath(String),
    /// Copy or move these entries into `dest` (`finish_transfer`).
    Transfer { kind: TransferKind, sources: Vec<FileEntry>, dest: String },
    /// Rename the entry at `path` to `new_name` (`finish_rename`).
    Rename { path: String, new_name: String },
    /// Create an empty file `name` in `dir` (`finish_create_file`).
    CreateFile { dir: String, name: String },
    /// Create a directory `name` in `dir` (`finish_create_dir`).
    CreateDir { dir: String, name: String },
    /// Delete these entries (`finish_delete`).
    Delete { targets: Vec<FileEntry> },
}

/// `a` with the focused pane's cursor moved by `delta`.
pub open spec fn moved_by(a: App, delta: isize) -> App {
    with_active(
        a,
        with_cursor(
            active_of(a),
            cursor_after_move(active_of(a).cursor, delta, visible_of(active_of(a)).len()),
        ),
    )
}

/// `new` and `req` are what copying or moving asks for in `old`: the entries the
/// focused pane acts on, into the other pane's directory; with nothing to act
/// on, only a status saying so.
pub open spec fn transfer_asked(
    old: App,
    new: App,
    req: Request,
    kind: TransferKind,
    nothing: Seq<char>,
) -> bool {
    exists|acts: Seq<FileEntry>|
        #![trigger acts_on(active_of(old), acts)]
        acts_on(active_of(old), acts) && if acts.len() == 0 {
            &&& new.status_msg@ == nothing
            &&& new == (App { status_msg: new.status_msg, ..old })
            &&& req is Nothing
        } else {
            &&& new == old
            &&& (req matches Request::Transfer { kind: k, sources, dest } && k == kind && sources@
                == acts && dest@ == other_of(old).path@)
        }
}

/// What a key does in normal mode.
pub open spec fn normal_step(old: App, key: KeyPress, new: App, req: Request) -> bool {
    let act = active_of(old);
    if key.ctrl && key.key == Key::Char('c') {
        new == (App { should_quit: true, ..old }) && req is Nothing
    } else {
        match key.key {
            Key::Char('q') => new == (App { should_quit: true, ..old }) && req is Nothing,
            Key::Char('j') | Key::Down => new == moved_by(old, 1) && req is Nothing,
            Key::Char('k') | Key::Up => new == moved_by(old, -1isize) && req is Nothing,
            Key::Char('G') => req is Nothing && new == if visible_of(act).len() > 0 {
                with_active(old, with_cursor(act, (visible_of(act).len() - 1) as usize))
            } else {
                old
            },
            Key::PageDown => new == moved_by(old, 20) && req is Nothing,
            Key::PageUp => new == moved_by(old, -20isize) && req is Nothing,
            Key::Enter => new == old && if enters(act) {
                (req matches Request::EnterDir(p) && p@ == current_of(act)->0.path@)
            } else {
                req is Nothing
            },
            Key::Backspace => new == old && match path_parent(act.path@) {
                Some(q) => (req matches Request::GoParent(p) && p@ == q),
                None => req is Nothing,
            },
            Key::Char('~') => new == old && req is GoHome,
            Key::Tab => new == pane_toggled(old) && req is Nothing,
            Key::Char('/') => typing(old, new, InputMode::Search) && req is Nothing,
            Key::Char('g') => go_path_started(old, new) && req is Nothing,
            Key::Char('c') => transfer_asked(old, new, req, TransferKind::Copy, "Nothing to copy"@),
            Key::Char('m') => transfer_asked(old, new, req, TransferKind::Move, "Nothing to move"@),
            Key::Char('d') => delete_confirm_started(old, new) && req is Nothing,
            Key::Char('r') => rename_started(old, new) && req is Nothing,
            Key::Char('n') => typing(old, new, InputMode::NewFile) && req is Nothing,
            Key::Char('N') => typing(old, new, InputMode::NewDir) && req is Nothing,
            Key::Char(' ') => {
                let p = active_of(new);
                let toggled = Pane { selected: p.selected, ..act };
                &&& req is Nothing
                &&& new == with_active(old, p)
                &&& p.selected@ == toggled_selection(act)
                &&& p == with_cursor(
                    toggled,
                    cursor_after_move(act.cursor, 1, visible_of(toggled).len()),
                )
            },
            Key::Char('a') => {
                &&& req is Nothing
                &&& new == with_active(old, active_of(new))
                &&& reselected(act, active_of(new), all_selection(act))
            },
            Key::Char('p') => new == preview_toggled(old) && req is Nothing,
            Key::Char('.') => new == old && (req matches Request::ToggleHidden(p) && p@ == act.path@),
            Key::Char('s') => new == old && (req matches Request::CycleSort(p) && p@ == act.path@),
            Key::Esc => new.status_msg@ == Seq::<char>::empty() && new == (App {
                status_msg: new.status_msg,
                ..old
            }) && req is Nothing,
            _ => new == old && req is Nothing,
        }
    }
}

/// Asks for copying or moving what the focused pane acts on into the other pane's
/// directory; with nothing to act on it says so.
fn ask_transfer(app: &mut App, kind: TransferKind) -> (req: Request)
    ensures
        kind == TransferKind::Copy ==> transfer_asked(
            *old(app),
            *final(app),
            req,
            kind,
            "Nothing to copy"@,
        ),
        kind == TransferKind::Move ==> transfer_asked(
            *old(app),
            *final(app),
            req,
            kind,
            "Nothing to move"@,
        ),
{
    let entries = app.active_pane().action_entries();
    if entries.len() == 0 {
        match kind {
            TransferKind::Copy => app.set_status(owned("Nothing to copy")),
            TransferKind::Move => app.set_status(owned("Nothing to move")),
        }
        return Request::Nothing;
    }
    let dest = app.other_pane().path.clone();
    Request::Transfer { kind, sources: entries, dest }
}

/// Whether a key in normal mode would move the cursor past the largest `usize`
/// (which overflows).
pub open spec fn normal_overflows(a: App, key: KeyPress) -> bool {
    let act = active_of(a);
    &&& !(key.ctrl && key.key == Key::Char('c'))
    &&& visible_of(act).len() > 0
    &&& {
        ||| (key.key == Key::Char('j') || key.key == Key::Down || key.key == Key::Char(' '))
            && act.cursor + 1 > usize::MAX
        ||| key.key == Key::PageDown && act.cursor + 20 > usize::MAX
    }
}

/// Whether handling `key` would overflow the cursor; see `normal_overflows`.
pub fn key_overflows(app: &App, key: KeyPress) -> (r: bool)
    ensures
        r == (app.input_mode == InputMode::Normal && normal_overflows(*app, key)),
{
    if app.input_mode != InputMode::Normal || (key.ctrl && key.key == Key::Char('c')) {
        return false;
    }
    let act = app.active_pane();
    if act.filtered_entries().len() == 0 {
        return false;
    }
    match key.key {
        Key::Char('j') | Key::Down | Key::Char(' ') => act.cursor == usize::MAX,
        Key::PageDown => act.cursor > usize::MAX - 20,
        _ => false,
    }
}

/// Asks for copying what the focused pane acts on into the other pane's
/// directory; with nothing to act on it says so.
pub fn do_copy(app: &mut App) -> (req: Request)
    ensures
        transfer_asked(*old(app), *final(app), req, TransferKind::Copy, "Nothing to copy"@),
{
    ask_transfer(app, TransferKind::Copy)
}

/// Asks for moving what the focused pane acts on into the other pane's
/// directory; with nothing to act on it says so.
pub fn do_move(app: &mut App) -> (req: Request)
    ensures
        transfer_asked(*old(app), *final(app), req, TransferKind::Move, "Nothing to move"@),
{
    ask_transfer(app, TransferKind::Move)
}

/// Handles a key in normal mode.
pub fn handle_normal(app: &mut App, key: KeyPress) -> (req: Request)
    requires
        !normal_overflows(*old(app), key),
    ensures
        normal_step(*old(app), key, *final(app), req),
{
    if key.ctrl && key.key == Key::Char('c') {
        app.should_quit = true;
        return Request::Nothing;
    }
    match key.key {
        Key::Char('q') => {
            app.should_quit = true;
            Request::Nothing
        },
        Key::Char('j') | Key::Down => {
            app.active_pane_mut().move_cursor(1);
            Request::Nothing
        },
        Key::Char('k') | Key::Up => {
            app.active_pane_mut().move_cursor(-1);
            Request::Nothing
        },
        Key::Char('G') => {
            let len = app.active_pane().filtered_entries().len();
            if len > 0 {
                app.active_pane_mut().cursor = len - 1;
            }
            Request::Nothing
        },
        Key::PageDown => {
            app.active_pane_mut().move_cursor(20);
            Request::Nothing
        },
        Key::PageUp => {
            app.active_pane_mut().move_cursor(-20);
            Request::Nothing
        },
        Key::Enter => match app.active_pane().enter_target() {
            Some(p) => Request::EnterDir(p),
            None => Request::Nothing,
        },
        Key::Backspace => match app.active_pane().parent_target() {
            Some(p) => Request::GoParent(p),
            None => Request::Nothing,
        },
        Key::Char('~') => Request::GoHome,
        Key::Tab => {
            app.toggle_pane();
            Request::Nothing
        },
        Key::Char('/') => {
            app.start_search();
            Request::Nothing
        },
        Key::Char('g') => {
            app.start_go_path();
            Request::Nothing
        },
        Key::Char('c') => do_copy(app),
        Key::Char('m') => do_move(app),
        Key::Char('d') => {
            app.start_delete_confirm();
            Request::Nothing
        },
        Key::Char('r') => {
            app.start_rename();
            Request::Nothing
        },
        Key::Char('n') => {
            app.start_new_file();
            Request::Nothing
        },
        Key::Char('N') => {
            app.start_new_dir();
            Request::Nothing
        },
        Key::Char(' ') => {
            app.active_pane_mut().toggle_select();
            app.active_pane_mut().move_cursor(1);
            Request::Nothing
        },
        Key::Char('a') => {
            app.active_pane_mut().select_all();
            Request::Nothing
        },
        Key::Char('p') => {
            app.toggle_preview();
            Request::Nothing
        },
        Key::Char('.') => Request::ToggleHidden(app.active_pane().path.clone()),
        Key::Char('s') => Request::CycleSort(app.active_pane().path.clone()),
        Key::Esc => {
            app.set_status(String::new());
            Request::Nothing
        },
        _ => Request::Nothing,
    }
}

/// The typed text after a key: one character fewer for Backspace (when there
/// is any), one more for a character key, unchanged otherwise.
pub open spec fn typed_after(text: Seq<char>, key: Key) -> Seq<char> {
    match key {
        Key::Backspace => if text.len() > 0 {
            text.drop_last()
        } else {
            text
        },
        Key::Char(c) => text.push(c),
        _ => text,
    }
}

/// `new` is `old` with only the typed text changed, to `text`.
pub open spec fn buffer_edited(old: App, new: App, text: Seq<char>) -> bool {
    new.input_buffer@ == text && new == (App { input_buffer: new.input_buffer, ..old })
}

/// `new` is `old` with the typed text set to `text` and the focused pane
/// filtering by it from the top.
pub open spec fn filter_edited(old: App, new: App, text: Seq<char>) -> bool {
    &&& new.input_buffer@ == text
    &&& active_of(new).filter@ == text
    &&& new == (App {
        input_buffer: new.input_buffer,
        ..with_active(old, Pane { filter: active_of(new).filter, cursor: 0, ..active_of(old) })
    })
}

/// What a key does while typing a search filter: Enter keeps the filter, Esc
/// drops it, other keys edit it.
pub open spec fn search_step(old: App, key: KeyPress, new: App) -> bool {
    match key.key {
        Key::Enter => new == (App { input_mode: InputMode::Normal, ..old }),
        Key::Esc => {
            &&& new.input_buffer@ == Seq::<char>::empty()
            &&& active_of(new).filter@ == Seq::<char>::empty()
            &&& new == (App {
                input_mode: InputMode::Normal,
                input_buffer: new.input_buffer,
                ..with_active(old, Pane { filter: active_of(new).filter, ..active_of(old) })
            })
        },
        Key::Backspace | Key::Char(_) => filter_edited(
            old,
            new,
            typed_after(old.input_buffer@, key.key),
        ),
        _ => new == old,
    }
}

/// What a key does while typing a name or a path, apart from Enter: Esc cancels,
/// Backspace and characters edit the text, other keys do nothing.
pub open spec fn typing_step(old: App, key: KeyPress, new: App) -> bool {
    match key.key {
        Key::Esc => input_cancelled(old, new),
        Key::Backspace | Key::Char(_) => buffer_edited(
            old,
            new,
            typed_after(old.input_buffer@, key.key),
        ),
        _ => new == old,
    }
}

/// `new` is `old` back in normal mode with the typed text cleared and the status
/// set to `status`.
pub open spec fn finished_with(old: App, new: App, status: Seq<char>) -> bool {
    &&& new.input_buffer@ == Seq::<char>::empty()
    &&& new.status_msg@ == status
    &&& new == (App {
        input_mode: InputMode::Normal,
        input_buffer: new.input_buffer,
        status_msg: new.status_msg,
        ..old
    })
}

/// Edits the typed text with a Backspace or a character key.
fn edit_buffer(app: &mut App, key: Key)
    ensures
        buffer_edited(*old(app), *final(app), typed_after(old(app).input_buffer@, key)),
{
    match key {
        Key::Backspace => {
            pop_char(&mut app.input_buffer);
        },
        Key::Char(c) => {
            push_char(&mut app.input_buffer, c);
        },
        _ => {},
    }
}

/// Handles a key while typing a search filter.
pub fn handle_search(app: &mut App, key: KeyPress)
    ensures
        search_step(*old(app), key, *final(app)),
{
    match key.key {
        Key::Enter => {
            app.input_mode = InputMode::Normal;
        },
        Key::Esc => {
            app.input_mode = InputMode::Normal;
            app.active_pane_mut().filter = String::new();
            app.input_buffer = String::new();
        },
        Key::Backspace | Key::Char(_) => {
            edit_buffer(app, key.key);
            let text = app.input_buffer.clone();
            app.active_pane_mut().filter = text;
            app.active_pane_mut().cursor = 0;
        },
        _ => {},
    }
}

/// What a key does while typing a path to go to.
pub open spec fn go_path_step(old: App, key: KeyPress, new: App, req: Request) -> bool {
    &&& (key.key == Key::Enter ==> new == old && (req matches Request::GoPath(p)
            && p@ == old.input_buffer@))
    &&& (key.key != Key::Enter ==> typing_step(old, key, new) && req is Nothing)
}

/// Handles a key while typing a path to go to; Enter asks for reading the path.
pub fn handle_go_path(app: &mut App, key: KeyPress) -> (req: Request)
    ensures
        go_path_step(*old(app), key, *final(app), req),
{
    match key.key {
        Key::Enter => Request::GoPath(app.input_buffer.clone()),
        Key::Esc => {
            app.cancel_input();
            Request::Nothing
        },
        Key::Backspace | Key::Char(_) => {
            edit_buffer(app, key.key);
            Request::Nothing
        },
        _ => Request::Nothing,
    }
}

/// Finishes going to the typed path: `listing` is what was read there when it is
/// a directory. Says where it went or that the path is not a directory.
pub fn finish_go_path(app: &mut App, listing: Option<DirListing>)
    ensures
        match listing {
            Some(l) => exists|p: Pane|
                #![trigger crate::pane::loaded(active_of(*old(app)), p, l)]
                crate::pane::loaded(active_of(*old(app)), p, l) && p.cursor == 0
                    && finished_with(
                    with_active(*old(app), p),
                    *final(app),
                    "Navigated to "@ + old(app).input_buffer@,
                ),
            None => finished_with(
                *old(app),
                *final(app),
                "Not a directory: "@ + old(app).input_buffer@,
            ),
        },
{
    let mut msg = String::new();
    match listing {
        Some(l) => {
            app.active_pane_mut().load_dir(l);
            push_str(&mut msg, "Navigated to ");
        },
        None => {
            push_str(&mut msg, "Not a directory: ");
        },
    }
    push_str(&mut msg, app.input_buffer.as_str());
    app.set_status(msg);
    app.input_mode = InputMode::Normal;
    app.input_buffer = String::new();
}

/// What a key does while typing a new name.
pub open spec fn rename_step(old: App, key: KeyPress, new: App, req: Request) -> bool {
    &&& (key.key == Key::Enter ==> match current_of(active_of(old)) {
            Some(e) => new == old && (req matches Request::Rename { path, new_name }
                && path@ == e.path@ && new_name@ == old.input_buffer@),
            None => req is Nothing && new.input_buffer@ == Seq::<char>::empty() && new == (App {
                input_mode: InputMode::Normal,
                input_buffer: new.input_buffer,
                ..old
            }),
        })
    &&& (key.key != Key::Enter ==> typing_step(old, key, new) && req is Nothing)
}

/// Handles a key while typing a new name; Enter asks for renaming the entry
/// under the cursor, or, with none, just leaves the mode.
pub fn handle_rename(app: &mut App, key: KeyPress) -> (req: Request)
    ensures
        rename_step(*old(app), key, *final(app), req),
{
    match key.key {
        Key::Enter => {
            let target = match app.active_pane().current_entry() {
                Some(e) => Some(e.path.clone()),
                None => None,
            };
            match target {
                Some(path) => Request::Rename { path, new_name: app.input_buffer.clone() },
                None => {
                    app.input_mode = InputMode::Normal;
                    app.input_buffer = String::new();
                    Request::Nothing
                },
            }
        },
        Key::Esc => {
            app.cancel_input();
            Request::Nothing
        },
        Key::Backspace | Key::Char(_) => {
            edit_buffer(app, key.key);
            Request::Nothing
        },
        _ => Request::Nothing,
    }
}

/// What a key does while typing the name of a new file.
pub open spec fn new_file_step(old: App, key: KeyPress, new: App, req: Request) -> bool {
    if key.key == Key::Enter {
        new == old && (req matches Request::CreateFile { dir, name } && dir@ == active_of(old).path@
            && name@ == old.input_buffer@)
    } else {
        typing_step(old, key, new) && req is Nothing
    }
}

/// Handles a key while typing the name of a new file; Enter asks for creating it
/// in the focused pane's directory.
pub fn handle_new_file(app: &mut App, key: KeyPress) -> (req: Request)
    ensures
        new_file_step(*old(app), key, *final(app), req),
{
    match key.key {
        Key::Enter => Request::CreateFile {
            dir: app.active_pane().path.clone(),
            name: app.input_buffer.clone(),
        },
        Key::Esc => {
            app.cancel_input();
            Request::Nothing
        },
        Key::Backspace | Key::Char(_) => {
            edit_buffer(app, key.key);
            Request::Nothing
        },
        _ => Request::Nothing,
    }
}

/// What a key does while typing the name of a new directory.
pub open spec fn new_dir_step(old: App, key: KeyPress, new: App, req: Request) -> bool {
    if key.key == Key::Enter {
        new == old && (req matches Request::CreateDir { dir, name } && dir@ == active_of(old).path@
            && name@ == old.input_buffer@)
    } else {
        typing_step(old, key, new) && req is Nothing
    }
}

/// Handles a key while typing the name of a new directory; Enter asks for
/// creating it in the focused pane's directory.
pub fn handle_new_dir(app: &mut App, key: KeyPress) -> (req: Request)
    ensures
        new_dir_step(*old(app), key, *final(app), req),
{
    match key.key {
        Key::Enter => Request::CreateDir {
            dir: app.active_pane().path.clone(),
            name: app.input_buffer.clone(),
        },
        Key::Esc => {
            app.cancel_input();
            Request::Nothing
        },
        Key::Backspace | Key::Char(_) => {
            edit_buffer(app, key.key);
            Request::Nothing
        },
        _ => Request::Nothing,
    }
}

/// The status after an operation on one entry: `ok` followed by the typed text
/// in quotes, or `failed` followed by the error.
pub open spec fn single_status(
    ok: Seq<char>,
    failed: Seq<char>,
    typed: Seq<char>,
    result: Result<DirListing, String>,
) -> Seq<char> {
    match result {
        Ok(_) => ok + "'"@ + typed + "'"@,
        Err(e) => failed + e@,
    }
}

/// `new` is `old` after an operation on one entry in the focused pane: on
/// success the pane is reloaded with the listing read afterwards; the status says
/// how it went; the mode is back to normal with the typed text cleared.
pub open spec fn single_finished(
    old: App,
    new: App,
    ok: Seq<char>,
    failed: Seq<char>,
    result: Result<DirListing, String>,
) -> bool {
    let status = single_status(ok, failed, old.input_buffer@, result);
    match result {
        Ok(l) => exists|p: Pane|
            #![trigger reloaded(active_of(old), p, l)]
            reloaded(active_of(old), p, l) && finished_with(with_active(old, p), new, status),
        Err(_) => finished_with(old, new, status),
    }
}

/// Reports an operation on one entry; see `single_finished`.
fn finish_single(app: &mut App, ok: &str, failed: &str, result: Result<DirListing, String>)
    ensures
        single_finished(*old(app), *final(app), ok@, failed@, result),
{
    let mut msg = String::new();
    match result {
        Ok(l) => {
            push_str(&mut msg, ok);
            push_str(&mut msg, "'");
            push_str(&mut msg, app.input_buffer.as_str());
            push_str(&mut msg, "'");
            app.set_status(msg);
            app.active_pane_mut().reload(l);
        },
        Err(e) => {
            push_str(&mut msg, failed);
            push_str(&mut msg, e.as_str());
            app.set_status(msg);
        },
    }
    app.input_mode = InputMode::Normal;
    app.input_buffer = String::new();
}

/// Finishes a rename: `result` is the listing read afterwards, or the error.
pub fn finish_rename(app: &mut App, result: Result<DirListing, String>)
    ensures
        single_finished(*old(app), *final(app), "Renamed to "@, "Rename failed: "@, result),
{
    finish_single(app, "Renamed to ", "Rename failed: ", result);
}

/// Finishes creating a file: `result` is the listing read afterwards, or the error.
pub fn finish_create_file(app: &mut App, result: Result<DirListing, String>)
    ensures
        single_finished(
            *old(app),
            *final(app),
            "Created file "@,
            "Create file failed: "@,
            result,
        ),
{
    finish_single(app, "Created file ", "Create file failed: ", result);
}

/// Finishes creating a directory: `result` is the listing read afterwards, or the
/// error.
pub fn finish_create_dir(app: &mut App, result: Result<DirListing, String>)
    ensures
        single_finished(
            *old(app),
            *final(app),
            "Created directory "@,
            "Create directory failed: "@,
            result,
        ),
{
    finish_single(app, "Created directory ", "Create directory failed: ", result);
}

/// What a key does while a deletion waits for confirmation.
pub open spec fn confirm_delete_step(old: App, key: KeyPress, new: App, req: Request) -> bool {
    if key.key == Key::Char('y') || key.key == Key::Char('Y') {
        new == old && (req matches Request::Delete { targets } && acts_on(
            active_of(old),
            targets@,
        ))
    } else {
        &&& req is Nothing
        &&& new.status_msg@ == "Delete cancelled"@
        &&& new == (App { status_msg: new.status_msg, input_mode: InputMode::Normal, ..old })
    }
}

/// Handles a key while a deletion waits for confirmation: `y` or `Y` asks for
/// deleting what the focused pane acts on; any other key cancels.
pub fn handle_confirm_delete(app: &mut App, key: KeyPress) -> (req: Request)
    ensures
        confirm_delete_step(*old(app), key, *final(app), req),
{
    match key.key {
        Key::Char('y') | Key::Char('Y') => Request::Delete {
            targets: app.active_pane().action_entries(),
        },
        _ => {
            app.set_status(owned("Delete cancelled"));
            app.input_mode = InputMode::Normal;
            Request::Nothing
        },
    }
}

/// Finishes a deletion: `outcomes` holds one result per target, `listing` is the
/// focused pane's directory read afterwards.
pub fn finish_delete(
    app: &mut App,
    targets: &Vec<FileEntry>,
    outcomes: &Vec<Result<(), String>>,
    listing: DirListing,
)
    requires
        targets.len() == outcomes.len(),
    ensures
        exists|p: Pane|
            #![trigger reloaded(active_of(*old(app)), p, listing)]
            reloaded(active_of(*old(app)), p, listing) && final(app).status_msg@ == batch_status(
                "Deleted"@,
                ""@,
                targets@,
                outcomes@,
            ) && *final(app) == (App {
                status_msg: final(app).status_msg,
                input_mode: InputMode::Normal,
                progress: None,
                ..with_active(*old(app), p)
            }),
{
    let msg = batch_status_text("Deleted", "", targets, outcomes);
    app.progress = None;
    app.set_status(msg);
    app.active_pane_mut().reload(listing);
    app.input_mode = InputMode::Normal;
}

/// Finishes copying or moving into `dest`: `outcomes` holds one result per
/// source, the listings are the two panes' directories read afterwards. Both
/// panes are reloaded and the focused pane's selection cleared.
pub fn finish_transfer(
    app: &mut App,
    kind: TransferKind,
    sources: &Vec<FileEntry>,
    dest: &String,
    outcomes: &Vec<Result<(), String>>,
    left_listing: DirListing,
    right_listing: DirListing,
)
    requires
        sources.len() == outcomes.len(),
    ensures
        exists|l: Pane, r: Pane|
            #![trigger reloaded(old(app).left, l, left_listing), reloaded(old(app).right, r, right_listing)]
            reloaded(old(app).left, l, left_listing) && reloaded(old(app).right, r, right_listing)
                && final(app).status_msg@ == batch_status(
                match kind {
                    TransferKind::Copy => "Copied"@,
                    TransferKind::Move => "Moved"@,
                },
                " to "@ + dest@,
                sources@,
                outcomes@,
            ) && *final(app) == (App {
                status_msg: final(app).status_msg,
                progress: None,
                left: l,
                right: r,
                ..*old(app)
            }),
{
    let mut tail = String::new();
    push_str(&mut tail, " to ");
    push_str(&mut tail, dest.as_str());
    let msg = match kind {
        TransferKind::Copy => batch_status_text("Copied", tail.as_str(), sources, outcomes),
        TransferKind::Move => batch_status_text("Moved", tail.as_str(), sources, outcomes),
    };
    app.progress = None;
    app.set_status(msg);
    app.left.reload(left_listing);
    app.right.reload(right_listing);
    app.active_pane_mut().selected = std::collections::HashSet::new();
    proof {
        assert(reloaded(old(app).left, app.left, left_listing));
        assert(reloaded(old(app).right, app.right, right_listing));
    }
}

/// Handles a key in whatever mode the app is in.
pub fn handle_key(app: &mut App, key: KeyPress) -> (req: Request)
    requires
        old(app).input_mode == InputMode::Normal ==> !normal_overflows(*old(app), key),
    ensures
        old(app).input_mode == InputMode::Normal ==> normal_step(*old(app), key, *final(app), req),
        old(app).input_mode == InputMode::Search ==> search_step(*old(app), key, *final(app))
            && req is Nothing,
        old(app).input_mode == InputMode::GoPath ==> go_path_step(*old(app), key, *final(app), req),
        old(app).input_mode == InputMode::Rename ==> rename_step(*old(app), key, *final(app), req),
        old(app).input_mode == InputMode::NewFile ==> new_file_step(*old(app), key, *final(app), req),
        old(app).input_mode == InputMode::NewDir ==> new_dir_step(*old(app), key, *final(app), req),
        old(app).input_mode == InputMode::ConfirmDelete ==> confirm_delete_step(
            *old(app),
            key,
            *final(app),
            req,
        ),
{
    match app.input_mode {
        InputMode::Normal => handle_normal(app, key),
        InputMode::Search => {
            handle_search(app, key);
            Request::Nothing
        },
        InputMode::GoPath => handle_go_path(app, key),
        InputMode::Rename => handle_rename(app, key),
        InputMode::NewFile => handle_new_file(app, key),
        InputMode::NewDir => handle_new_dir(app, key),
        InputMode::ConfirmDelete => handle_confirm_delete(app, key),
    }
}

/// How many operations succeeded.
pub open spec fn ok_count(outcomes: Seq<Result<(), String>>) -> nat
    decreases outcomes.len(),
{
    if outcomes.len() == 0 {
        0
    } else {
        ok_count(outcomes.drop_last()) + if outcomes.last() is Ok {
            1nat
        } else {
            0nat
        }
    }
}

/// One `name: error` text for each failed operation, in order.
pub open spec fn error_texts(entries: Seq<FileEntry>, outcomes: Seq<Result<(), String>>) -> Seq<
    Seq<char>,
>
    decreases outcomes.len(),
{
    if outcomes.len() == 0 {
        Seq::empty()
    } else {
        let prev = error_texts(entries, outcomes.drop_last());
        match outcomes.last() {
            Ok(_) => prev,
            Err(e) => prev.push(entries[outcomes.len() - 1].name@ + ": "@ + e@),
        }
    }
}

/// The status after operating on `entries` with these outcomes: how many items
/// succeeded (followed by `ok_tail`) when all did, otherwise how many out of
/// how many, and the errors.
pub open spec fn batch_status(
    verb: Seq<char>,
    ok_tail: Seq<char>,
    entries: Seq<FileEntry>,
    outcomes: Seq<Result<(), String>>,
) -> Seq<char> {
    let errs = error_texts(entries, outcomes);
    if errs.len() == 0 {
        verb + " "@ + decimal(ok_count(outcomes)) + " item(s)"@ + ok_tail
    } else {
        verb + " "@ + decimal(ok_count(outcomes)) + "/"@ + decimal(entries.len()) + ", errors: "@
            + joined(errs, ", "@)
    }
}

proof fn lemma_outcome_counts(entries: Seq<FileEntry>, outcomes: Seq<Result<(), String>>)
    ensures
        ok_count(outcomes) == outcomes.filter(|o: Result<(), String>| o is Ok).len(),
        error_texts(entries, outcomes).len() == outcomes.filter(|o: Result<(), String>| o is Err).len(),
        ok_count(outcomes) + error_texts(entries, outcomes).len() == outcomes.len(),
    decreases outcomes.len(),
{
    reveal(Seq::filter);
    if outcomes.len() > 0 {
        lemma_outcome_counts(entries, outcomes.drop_last());
    }
}

/// After a batch of operations the status counts the ones that succeeded: when
/// all did, it says how many items (all of them) and the tail; otherwise how
/// many succeeded out of how many, and one `name: error` text for each failure,
/// naming the entry it belongs to, in order.
pub proof fn lemma_batch_status(
    verb: Seq<char>,
    ok_tail: Seq<char>,
    entries: Seq<FileEntry>,
    outcomes: Seq<Result<(), String>>,
)
    requires
        entries.len() == outcomes.len(),
    ensures
        ({
            let oks = outcomes.filter(|o: Result<(), String>| o is Ok).len();
            let errs = error_texts(entries, outcomes);
            &&& oks + errs.len() == outcomes.len()
            &&& oks == outcomes.len() ==> batch_status(verb, ok_tail, entries, outcomes) == verb
                + " "@ + decimal(outcomes.len()) + " item(s)"@ + ok_tail
            &&& oks < outcomes.len() ==> batch_status(verb, ok_tail, entries, outcomes) == verb
                + " "@ + decimal(oks) + "/"@ + decimal(entries.len()) + ", errors: "@ + joined(
                errs,
                ", "@,
            )
            &&& forall|k: int|
                0 <= k < outcomes.len() && (#[trigger] outcomes[k]) is Err ==> exists|j: int|
                    0 <= j < errs.len() && #[trigger] errs[j] == entries[k].name@ + ": "@
                        + outcomes[k]->Err_0@
        }),
{
    lemma_outcome_counts(entries, outcomes);
    lemma_error_texts_cover(entries, outcomes, outcomes.len());
    assert(outcomes.take(outcomes.len() as int) =~= outcomes);
}

proof fn lemma_error_texts_cover(
    entries: Seq<FileEntry>,
    outcomes: Seq<Result<(), String>>,
    n: nat,
)
    requires
        n <= outcomes.len(),
    ensures
        forall|k: int|
            0 <= k < n && (#[trigger] outcomes[k]) is Err ==> exists|j: int|
                0 <= j < error_texts(entries, outcomes.take(n as int)).len() && #[trigger] error_texts(
                    entries,
                    outcomes.take(n as int),
                )[j] == entries[k].name@ + ": "@ + outcomes[k]->Err_0@,
    decreases n,
{
    if n > 0 {
        lemma_error_texts_cover(entries, outcomes, (n - 1) as nat);
        let cur = outcomes.take(n as int);
        let prev = outcomes.take(n - 1);
        assert(cur.drop_last() =~= prev);
        let pe = error_texts(entries, prev);
        let ce = error_texts(entries, cur);
        assert forall|k: int| 0 <= k < n && (#[trigger] outcomes[k]) is Err implies exists|j: int|
            0 <= j < ce.len() && #[trigger] ce[j] == entries[k].name@ + ": "@ + outcomes[k]->Err_0@ by {
            if k < n - 1 {
                let j = choose|j: int|
                    0 <= j < pe.len() && #[trigger] pe[j] == entries[k].name@ + ": "@
                        + outcomes[k]->Err_0@;
                assert(ce[j] == pe[j]);
            } else {
                assert(cur.last() == outcomes[k]);
                assert(ce[ce.len() - 1] == entries[k].name@ + ": "@ + outcomes[k]->Err_0@);
            }
        }
    }
}

/// The status text after a batch of operations; see `batch_status`.
pub fn batch_status_text(
    verb: &str,
    ok_tail: &str,
    entries: &Vec<FileEntry>,
    outcomes: &Vec<Result<(), String>>,
) -> (r: String)
    requires
        entries.len() == outcomes.len(),
    ensures
        r@ == batch_status(verb@, ok_tail@, entries@, outcomes@),
{
    let n = outcomes.len();
    let mut done: usize = 0;
    let mut errors: Vec<String> = Vec::new();
    for k in 0..n
        invariant
            n == outcomes.len(),
            n == entries.len(),
            done == ok_count(outcomes@.take(k as int)),
            done <= k,
            texts(errors@) == error_texts(entries@, outcomes@.take(k as int)),
    {
        proof {
            assert(outcomes@.take(k + 1).drop_last() =~= outcomes@.take(k as int));
        }
        match &outcomes[k] {
            Ok(_) => {
                done = done + 1;
            },
            Err(e) => {
                let mut t = String::new();
                push_str(&mut t, entries[k].name.as_str());
                push_str(&mut t, ": ");
                push_str(&mut t, e.as_str());
                errors.push(t);
                proof {
                    assert(texts(errors@) =~= error_texts(entries@, outcomes@.take(k as int)).push(
                        entries@[k as int].name@ + ": "@ + e@,
                    ));
                }
            },
        }
    }
    proof {
        assert(outcomes@.take(n as int) =~= outcomes@);
    }
    let mut r = String::new();
    push_str(&mut r, verb);
    push_str(&mut r, " ");
    push_decimal(&mut r, done as u128);
    if errors.len() == 0 {
        push_str(&mut r, " item(s)");
        push_str(&mut r, ok_tail);
    } else {
        push_str(&mut r, "/");
        push_decimal(&mut r, n as u128);
        push_str(&mut r, ", errors: ");
        let joined_errors = join_texts(&errors, ", ");
        push_str(&mut r, joined_errors.as_str());
    }
    proof {
        assert(r@ =~= batch_status(verb@, ok_tail@, entries@, outcomes@));
    }
    r
}

/// Copying or moving asks for something exactly when the focused pane has
/// something to act on: the entries it acts on, of the asked kind, into the
/// directory of the pane without the focus (the right pane's when the left one
/// has it, the left pane's when the right one has it), and nothing else changes.
/// With nothing to act on it asks for nothing and only sets the status.
pub proof fn lemma_transfer_target(
    old: App,
    new: App,
    req: Request,
    kind: TransferKind,
    nothing: Seq<char>,
)
    requires
        transfer_asked(old, new, req, kind, nothing),
    ensures
        (req is Transfer) == (has_valid_selection(active_of(old)) || current_of(active_of(old)) is Some),
        req matches Request::Transfer { kind: k, sources, dest } ==> {
            &&& k == kind
            &&& new == old
            &&& sources@.len() > 0
            &&& acts_on(active_of(old), sources@)
            &&& old.active == ActivePane::Left ==> dest@ == old.right.path@
            &&& old.active == ActivePane::Right ==> dest@ == old.left.path@
        },
        !(req is Transfer) ==> {
            &&& req is Nothing
            &&& new.status_msg@ == nothing
            &&& new == (App { status_msg: new.status_msg, ..old })
        },
{
    let acts = choose|acts: Seq<FileEntry>|
        #![trigger acts_on(active_of(old), acts)]
        acts_on(active_of(old), acts) && if acts.len() == 0 {
            &&& new.status_msg@ == nothing
            &&& new == (App { status_msg: new.status_msg, ..old })
            &&& req is Nothing
        } else {
            &&& new == old
            &&& (req matches Request::Transfer { kind: k, sources, dest } && k == kind && sources@
                == acts && dest@ == other_of(old).path@)
        };
    lemma_acts_on_empty(active_of(old), acts);
}

/// In normal mode `c` asks to copy and `m` to move, as `lemma_transfer_target`
/// describes.
pub proof fn lemma_copy_move_keys(old: App, key: KeyPress, new: App, req: Request)
    requires
        normal_step(old, key, new, req),
        !key.ctrl,
    ensures
        key.key == Key::Char('c') ==> transfer_asked(
            old,
            new,
            req,
            TransferKind::Copy,
            "Nothing to copy"@,
        ),
        key.key == Key::Char('m') ==> transfer_asked(
            old,
            new,
            req,
            TransferKind::Move,
            "Nothing to move"@,
        ),
        key.key == Key::Char('c') ==> (req matches Request::Transfer { kind, .. } ==> kind
            == TransferKind::Copy),
        key.key == Key::Char('m') ==> (req matches Request::Transfer { kind, .. } ==> kind
            == TransferKind::Move),
        key.key != Key::Char('c') && key.key != Key::Char('m') ==> !(req is Transfer),
{
    if key.key == Key::Char('c') {
        lemma_transfer_target(old, new, req, TransferKind::Copy, "Nothing to copy"@);
    }
    if key.key == Key::Char('m') {
        lemma_transfer_target(old, new, req, TransferKind::Move, "Nothing to move"@);
    }
}

/// In normal mode the keys that start typing follow the key table: `/` a
/// search filter, `g` a path (starting from the focused pane's path), `n` the
/// name of a new file, `N` the name of a new directory (both from nothing), `r`
/// a new name for the entry under the cursor (starting from its name), and `d`
/// asks to confirm a deletion when there is something to delete. No other key
/// changes the mode, and none of these asks for work.
pub proof fn lemma_normal_mode_keys(old: App, key: KeyPress, new: App, req: Request)
    requires
        normal_step(old, key, new, req),
        !key.ctrl,
    ensures
        key.key == Key::Char('/') ==> new.input_mode == InputMode::Search
            && new.input_buffer@.len() == 0 && req is Nothing,
        key.key == Key::Char('g') ==> new.input_mode == InputMode::GoPath && new.input_buffer@
            == active_of(old).path@ && req is Nothing,
        key.key == Key::Char('n') ==> new.input_mode == InputMode::NewFile
            && new.input_buffer@.len() == 0 && req is Nothing,
        key.key == Key::Char('N') ==> new.input_mode == InputMode::NewDir
            && new.input_buffer@.len() == 0 && req is Nothing,
        key.key == Key::Char('r') ==> req is Nothing && match current_of(active_of(old)) {
            Some(e) => new.input_mode == InputMode::Rename && new.input_buffer@ == e.name@,
            None => new == old,
        },
        key.key == Key::Char('d') ==> req is Nothing && if has_valid_selection(active_of(old))
            || current_of(active_of(old)) is Some {
            new.input_mode == InputMode::ConfirmDelete
        } else {
            new.input_mode == old.input_mode && new.status_msg@ == "Nothing to delete"@
        },
        key.key != Key::Char('/') && key.key != Key::Char('g') && key.key != Key::Char('n')
            && key.key != Key::Char('N') && key.key != Key::Char('r') && key.key != Key::Char('d')
            ==> new.input_mode == old.input_mode,
        new.left.path == old.left.path && new.right.path == old.right.path,
{
    if key.key == Key::Char('d') {
        let acts = choose|acts: Seq<FileEntry>|
            #![trigger acts_on(active_of(old), acts)]
            acts_on(active_of(old), acts) && if acts.len() == 0 {
                &&& new.status_msg@ == "Nothing to delete"@
                &&& new == (App { status_msg: new.status_msg, ..old })
            } else {
                &&& new.status_msg@ == crate::app::delete_prompt(acts)
                &&& new == (App {
                    status_msg: new.status_msg,
                    input_mode: InputMode::ConfirmDelete,
                    ..old
                })
            };
        lemma_acts_on_empty(active_of(old), acts);
    }
    if key.key == Key::Char('c') {
        lemma_transfer_target(old, new, req, TransferKind::Copy, "Nothing to copy"@);
    }
    if key.key == Key::Char('m') {
        lemma_transfer_target(old, new, req, TransferKind::Move, "Nothing to move"@);
    }
}

/// In normal mode the keys that ask for reading a directory follow the key
/// table: Enter enters the entry under the cursor when it is a directory,
/// Backspace goes to the parent of the focused pane's path when it has one, `~`
/// goes home, `.` shows or hides hidden entries and `s` changes the sort mode,
/// both for the focused pane's directory. None of them changes the state, and
/// no other key asks for reading a directory.
pub proof fn lemma_normal_request_keys(old: App, key: KeyPress, new: App, req: Request)
    requires
        normal_step(old, key, new, req),
        !key.ctrl,
    ensures
        key.key == Key::Enter ==> new == old && match current_of(active_of(old)) {
            Some(e) => if e.is_dir {
                req matches Request::EnterDir(p) && p@ == e.path@
            } else {
                req is Nothing
            },
            None => req is Nothing,
        },
        key.key == Key::Backspace ==> new == old && match path_parent(active_of(old).path@) {
            Some(q) => req matches Request::GoParent(p) && p@ == q,
            None => req is Nothing,
        },
        key.key == Key::Char('~') ==> new == old && req is GoHome,
        key.key == Key::Char('.') ==> new == old && (req matches Request::ToggleHidden(p) && p@
            == active_of(old).path@),
        key.key == Key::Char('s') ==> new == old && (req matches Request::CycleSort(p) && p@
            == active_of(old).path@),
        key.key != Key::Enter ==> !(req is EnterDir),
        key.key != Key::Backspace ==> !(req is GoParent),
        key.key != Key::Char('~') ==> !(req is GoHome),
        key.key != Key::Char('.') ==> !(req is ToggleHidden),
        key.key != Key::Char('s') ==> !(req is CycleSort),
        !(req is GoPath) && !(req is Rename) && !(req is CreateFile) && !(req is CreateDir)
            && !(req is Delete),
{
    if key.key == Key::Char('c') {
        lemma_transfer_target(old, new, req, TransferKind::Copy, "Nothing to copy"@);
    }
    if key.key == Key::Char('m') {
        lemma_transfer_target(old, new, req, TransferKind::Move, "Nothing to move"@);
    }
}

/// In normal mode the movement keys move only the focused pane's cursor among
/// the `n` visible entries, stopping at the first and the last: `j` or Down one
/// down, `k` or Up one up, PageDown twenty down, PageUp twenty up, `G` to the
/// last entry. With nothing visible the cursor goes to the top (`G` then leaves
/// it).
pub proof fn lemma_normal_move_keys(old: App, key: KeyPress, new: App, req: Request)
    requires
        normal_step(old, key, new, req),
        !key.ctrl,
        !normal_overflows(old, key),
        active_of(old).entries@.len() <= usize::MAX,
    ensures
        ({
            let act = active_of(old);
            let n = visible_of(act).len();
            let c = act.cursor as int;
            let moved = key.key == Key::Char('j') || key.key == Key::Down || key.key == Key::Char('k')
                || key.key == Key::Up || key.key == Key::PageDown || key.key == Key::PageUp
                || key.key == Key::Char('G');
            let nc = active_of(new).cursor as int;
            &&& moved ==> req is Nothing && new.active == old.active && active_of(new) == (Pane {
                cursor: active_of(new).cursor,
                ..act
            }) && (old.active == ActivePane::Left ==> new == (App { left: new.left, ..old }))
                && (old.active == ActivePane::Right ==> new == (App { right: new.right, ..old }))
            &&& (key.key == Key::Char('j') || key.key == Key::Down) ==> (n == 0 ==> nc == 0) && (n
                > 0 ==> nc == if c + 1 < n { c + 1 } else { n - 1 })
            &&& (key.key == Key::Char('k') || key.key == Key::Up) ==> (n == 0 ==> nc == 0) && (n
                > 0 ==> nc == if c >= 1 { c - 1 } else { 0 })
            &&& key.key == Key::PageDown ==> (n == 0 ==> nc == 0) && (n > 0 ==> nc == if c + 20
                < n { c + 20 } else { n - 1 })
            &&& key.key == Key::PageUp ==> (n == 0 ==> nc == 0) && (n > 0 ==> nc == if c >= 20 {
                c - 20
            } else {
                0
            })
            &&& key.key == Key::Char('G') ==> (n == 0 ==> nc == c) && (n > 0 ==> nc == n - 1)
        }),
{
    let act = active_of(old);
    crate::pane::lemma_visible_bounds(act.entries@, act.filter@);
    if key.key == Key::Char('j') || key.key == Key::Down {
        assert(new == moved_by(old, 1));
    } else if key.key == Key::Char('k') || key.key == Key::Up {
        assert(new == moved_by(old, -1isize));
    } else if key.key == Key::PageDown {
        assert(new == moved_by(old, 20));
    } else if key.key == Key::PageUp {
        assert(new == moved_by(old, -20isize));
    }
}

/// In normal mode Tab moves the focus to the other pane while the right half
/// shows a directory (and not while it shows the preview); `p` switches the right
/// half between directory and preview, moving the focus to the left pane when
/// the preview comes on; `q` quits. Only Tab and `p` move the focus, only `p`
/// changes what the right half shows, only `q` quits.
pub proof fn lemma_normal_view_keys(old: App, key: KeyPress, new: App, req: Request)
    requires
        normal_step(old, key, new, req),
        !key.ctrl,
    ensures
        key.key == Key::Tab ==> req is Nothing && new.left == old.left && new.right == old.right
            && new.right_mode == old.right_mode && (old.right_mode == RightMode::Directory ==> new.active
            != old.active) && (old.right_mode == RightMode::Preview ==> new.active == old.active),
        key.key == Key::Char('p') ==> req is Nothing && new.left == old.left && new.right
            == old.right && new.right_mode != old.right_mode && (new.right_mode == RightMode::Preview
            ==> new.active == ActivePane::Left) && (new.right_mode == RightMode::Directory
            ==> new.active == old.active),
        key.key != Key::Tab && key.key != Key::Char('p') ==> new.active == old.active,
        key.key != Key::Char('p') ==> new.right_mode == old.right_mode,
        new.should_quit == (old.should_quit || key.key == Key::Char('q')),
{
    if key.key == Key::Char('d') {
        let acts = choose|acts: Seq<FileEntry>|
            #![trigger acts_on(active_of(old), acts)]
            acts_on(active_of(old), acts) && if acts.len() == 0 {
                &&& new.status_msg@ == "Nothing to delete"@
                &&& new == (App { status_msg: new.status_msg, ..old })
            } else {
                &&& new.status_msg@ == crate::app::delete_prompt(acts)
                &&& new == (App {
                    status_msg: new.status_msg,
                    input_mode: InputMode::ConfirmDelete,
                    ..old
                })
            };
    }
    if key.key == Key::Char('c') {
        lemma_transfer_target(old, new, req, TransferKind::Copy, "Nothing to copy"@);
    }
    if key.key == Key::Char('m') {
        lemma_transfer_target(old, new, req, TransferKind::Move, "Nothing to move"@);
    }
}

/// Control-C quits in every case, and asks for nothing.
pub proof fn lemma_ctrl_c_quits(old: App, key: KeyPress, new: App, req: Request)
    requires
        normal_step(old, key, new, req),
        key.ctrl && key.key == Key::Char('c'),
    ensures
        new.should_quit,
        req is Nothing,
        new == (App { should_quit: true, ..old }),
{
}

/// In normal mode Space flips whether the listing position under the cursor is
/// selected, leaves every other position as it was, and moves the cursor one
/// down (stopping at the last visible entry); `a` selects every visible position,
/// or clears the selection when exactly the visible positions were selected.
pub proof fn lemma_normal_select_keys(old: App, key: KeyPress, new: App, req: Request)
    requires
        normal_step(old, key, new, req),
        !key.ctrl,
        !normal_overflows(old, key),
    ensures
        ({
            let act = active_of(old);
            let v = visible_of(act);
            let c = act.cursor as int;
            let sel = active_of(new).selected@;
            &&& key.key == Key::Char(' ') ==> {
                &&& req is Nothing
                &&& new.active == old.active
                &&& c < v.len() ==> (sel.contains(v[c]) != act.selected@.contains(v[c]))
                &&& forall|i: usize|
                    (c >= v.len() || i != v[c]) ==> (#[trigger] sel.contains(i)
                        == act.selected@.contains(i))
                &&& v.len() > 0 ==> active_of(new).cursor == if c + 1 < v.len() {
                    c + 1
                } else {
                    v.len() - 1
                }
            }
            &&& key.key == Key::Char('a') ==> {
                &&& req is Nothing
                &&& new.active == old.active
                &&& act.selected@ == v.to_set() ==> sel == Set::<usize>::empty()
                &&& act.selected@ != v.to_set() ==> sel == v.to_set()
                &&& active_of(new).cursor == act.cursor
            }
        }),
{
}

/// Enter while typing: a typed path asks for going to that path; a typed name
/// asks for renaming the entry under the cursor to it (or, with none, just ends
/// the typing), for creating a file of that name or a directory of that name in
/// the focused pane's directory.
pub proof fn lemma_enter_in_prompts(old: App, key: KeyPress, new: App, req: Request)
    requires
        key.key == Key::Enter,
    ensures
        go_path_step(old, key, new, req) ==> new == old && (req matches Request::GoPath(p) && p@
            == old.input_buffer@),
        rename_step(old, key, new, req) ==> match current_of(active_of(old)) {
            Some(e) => new == old && (req matches Request::Rename { path, new_name } && path@
                == e.path@ && new_name@ == old.input_buffer@),
            None => req is Nothing && new.input_mode == InputMode::Normal && new.input_buffer@.len()
                == 0,
        },
        new_file_step(old, key, new, req) ==> new == old && (req matches Request::CreateFile {
            dir,
            name,
        } && dir@ == active_of(old).path@ && name@ == old.input_buffer@),
        new_dir_step(old, key, new, req) ==> new == old && (req matches Request::CreateDir {
            dir,
            name,
        } && dir@ == active_of(old).path@ && name@ == old.input_buffer@),
{
}

/// Other keys while typing a path or a name: a character is added at the end of
/// the typed text, Backspace takes the last one off (if any), Esc goes back to
/// normal mode with the text, the focused pane's filter and the status cleared;
/// none of them asks for work.
pub proof fn lemma_typing_keys(old: App, key: KeyPress, new: App, req: Request)
    requires
        key.key != Key::Enter,
        go_path_step(old, key, new, req) || rename_step(old, key, new, req) || new_file_step(
            old,
            key,
            new,
            req,
        ) || new_dir_step(old, key, new, req),
    ensures
        req is Nothing,
        key.key matches Key::Char(ch) ==> new.input_buffer@ == old.input_buffer@.push(ch)
            && new.input_mode == old.input_mode && new.left == old.left && new.right == old.right,
        key.key == Key::Backspace ==> new.input_mode == old.input_mode && new.input_buffer@ == if old.input_buffer@.len() > 0 {
            old.input_buffer@.drop_last()
        } else {
            old.input_buffer@
        },
        key.key == Key::Esc ==> new.input_mode == InputMode::Normal && new.input_buffer@.len() == 0
            && new.status_msg@.len() == 0 && active_of(new).filter@.len() == 0,
{
}

/// While typing a search filter, the focused pane filters by the typed text: a
/// character is added to both, Backspace takes the last one off both, and the
/// cursor goes to the top; Enter goes back to normal mode keeping the filter;
/// Esc goes back to normal mode dropping it.
pub proof fn lemma_search_keys(old: App, key: KeyPress, new: App)
    requires
        search_step(old, key, new),
    ensures
        key.key matches Key::Char(ch) ==> new.input_buffer@ == old.input_buffer@.push(ch)
            && active_of(new).filter@ == new.input_buffer@ && active_of(new).cursor == 0
            && new.input_mode == old.input_mode,
        key.key == Key::Backspace ==> active_of(new).filter@ == new.input_buffer@ && new.input_buffer@
            == if old.input_buffer@.len() > 0 {
            old.input_buffer@.drop_last()
        } else {
            old.input_buffer@
        },
        key.key == Key::Enter ==> new.input_mode == InputMode::Normal && active_of(new).filter
            == active_of(old).filter,
        key.key == Key::Esc ==> new.input_mode == InputMode::Normal && active_of(new).filter@.len()
            == 0,
        new.active == old.active,
{
}

/// While a deletion waits for confirmation, `y` or `Y` asks for deleting what the
/// focused pane acts on, which is something exactly when a selected position is
/// in the listing or there is an entry under the cursor; any other key asks for
/// nothing and goes back to normal mode saying the deletion was cancelled.
pub proof fn lemma_confirm_delete_keys(old: App, key: KeyPress, new: App, req: Request)
    requires
        confirm_delete_step(old, key, new, req),
    ensures
        key.key == Key::Char('y') || key.key == Key::Char('Y') ==> new == old && (req matches Request::Delete {
            targets,
        } && acts_on(active_of(old), targets@) && (targets@.len() > 0) == (has_valid_selection(
            active_of(old),
        ) || current_of(active_of(old)) is Some)),
        key.key != Key::Char('y') && key.key != Key::Char('Y') ==> req is Nothing && new.input_mode
            == InputMode::Normal && new.status_msg@ == "Delete cancelled"@ && new.left == old.left
            && new.right == old.right,
{
    if let Request::Delete { targets } = req {
        lemma_acts_on_empty(active_of(old), targets@);
    }
}

} // verus!
