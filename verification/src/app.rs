use vstd::prelude::*;

use crate::entry::FileEntry;
use crate::pane::{acts_on, current_of, fresh, DirListing, Pane};
use crate::text::{decimal, owned, push_decimal, push_str};

verus! {

/// Which pane has the focus.
#[derive(Debug, Clone, Copy, PartialEq, Eq, Structural)]
pub enum ActivePane {
    Left,
    Right,
}

/// What the right half of the screen shows.
#[derive(Debug, Clone, Copy, PartialEq, Eq, Structural)]
pub enum RightMode {
    Directory,
    Preview,
}

/// What the keyboard is currently used for.
#[derive(Debug, Clone, Copy, PartialEq, Eq, Structural)]
pub enum InputMode {
    Normal,
    Search,
    GoPath,
    Rename,
    NewFile,
    NewDir,
    ConfirmDelete,
}

/// The whole state of the file manager.
#[derive(Debug)]
pub struct App {
    pub left: Pane,
    pub right: Pane,
    pub active: ActivePane,
    pub right_mode: RightMode,
    pub input_mode: InputMode,
    pub input_buffer: String,
    pub status_msg: String,
    pub should_quit: bool,
    pub progress: Option<(usize, usize)>,
}

/// The pane with the focus.
pub open spec fn active_of(a: App) -> Pane {
    match a.active {
        ActivePane::Left => a.left,
        ActivePane::Right => a.right,
    }
}

/// The pane without the focus.
pub open spec fn other_of(a: App) -> Pane {
    match a.active {
        ActivePane::Left => a.right,
        ActivePane::Right => a.left,
    }
}

/// The app with its focused pane replaced by `p`.
pub open spec fn with_active(a: App, p: Pane) -> App {
    match a.active {
        ActivePane::Left => App { left: p, ..a },
        ActivePane::Right => App { right: p, ..a },
    }
}

/// The other side.
pub open spec fn flipped(side: ActivePane) -> ActivePane {
    match side {
        ActivePane::Left => ActivePane::Right,
        ActivePane::Right => ActivePane::Left,
    }
}

/// The prompt that asks to confirm deleting `acts`.
pub open spec fn delete_prompt(acts: Seq<FileEntry>) -> Seq<char> {
    if acts.len() == 1 {
        "Delete '"@ + acts[0].name@ + "'? [y/N]"@
    } else {
        "Delete "@ + decimal(acts.len()) + " items? [y/N]"@
    }
}

/// `new` is `old` typing in `mode`, starting from nothing.
pub open spec fn typing(old: App, new: App, mode: InputMode) -> bool {
    &&& new.input_buffer@ == Seq::<char>::empty()
    &&& new == (App { input_mode: mode, input_buffer: new.input_buffer, ..old })
}

/// `new` is `old` typing a path, starting from the focused pane's path.
pub open spec fn go_path_started(old: App, new: App) -> bool {
    &&& new.input_buffer@ == active_of(old).path@
    &&& new == (App { input_mode: InputMode::GoPath, input_buffer: new.input_buffer, ..old })
}

/// `new` is `old` renaming the current entry, starting from its name; or `old`
/// itself when there is no current entry.
pub open spec fn rename_started(old: App, new: App) -> bool {
    match current_of(active_of(old)) {
        Some(e) => new.input_buffer@ == e.name@ && new == (App {
            input_mode: InputMode::Rename,
            input_buffer: new.input_buffer,
            ..old
        }),
        None => new == old,
    }
}

/// `new` is `old` asking to confirm deleting what the focused pane acts on, or
/// saying that there is nothing to delete.
pub open spec fn delete_confirm_started(old: App, new: App) -> bool {
    exists|acts: Seq<FileEntry>|
        #![trigger acts_on(active_of(old), acts)]
        acts_on(active_of(old), acts) && if acts.len() == 0 {
            &&& new.status_msg@ == "Nothing to delete"@
            &&& new == (App { status_msg: new.status_msg, ..old })
        } else {
            &&& new.status_msg@ == delete_prompt(acts)
            &&& new == (App {
                status_msg: new.status_msg,
                input_mode: InputMode::ConfirmDelete,
                ..old
            })
        }
}

/// `new` is `old` back in normal mode with the typed text, the focused pane's
/// filter and the status message cleared.
pub open spec fn input_cancelled(old: App, new: App) -> bool {
    &&& new.input_mode == InputMode::Normal
    &&& new.input_buffer@ == Seq::<char>::empty()
    &&& new.status_msg@ == Seq::<char>::empty()
    &&& active_of(new).filter@ == Seq::<char>::empty()
    &&& new == (App {
        input_mode: InputMode::Normal,
        input_buffer: new.input_buffer,
        status_msg: new.status_msg,
        ..with_active(old, Pane { filter: active_of(new).filter, ..active_of(old) })
    })
}

/// The focus moved to the other pane, while the right half shows a directory.
pub open spec fn pane_toggled(a: App) -> App {
    if a.right_mode == RightMode::Directory {
        App { active: flipped(a.active), ..a }
    } else {
        a
    }
}

/// The right half switched between directory and preview.
pub open spec fn preview_toggled(a: App) -> App {
    match a.right_mode {
        RightMode::Directory => App {
            right_mode: RightMode::Preview,
            active: ActivePane::Left,
            ..a
        },
        RightMode::Preview => App { right_mode: RightMode::Directory, ..a },
    }
}

/// Moving the focus twice gives back the focus.
pub proof fn lemma_toggle_pane_twice(a: App)
    ensures
        pane_toggled(pane_toggled(a)) == a,
{
}

/// Switching the right half twice gives back what it showed, with the focus on
/// the left pane.
pub proof fn lemma_toggle_preview_twice(a: App)
    ensures
        preview_toggled(preview_toggled(a)).right_mode == a.right_mode,
        preview_toggled(preview_toggled(a)) == (App { active: ActivePane::Left, ..a }),
{
}

/// While the preview is shown, the focus cannot move to the right pane.
pub proof fn lemma_preview_keeps_focus_left(a: App)
    requires
        a.right_mode == RightMode::Directory,
    ensures
        preview_toggled(a).active == ActivePane::Left,
        pane_toggled(preview_toggled(a)).active == ActivePane::Left,
{
}

impl App {
    /// Both panes showing `listing`, the left one focused, nothing typed.
    pub fn new(listing: DirListing) -> (a: App)
        ensures
            fresh(a.left, listing),
            fresh(a.right, listing),
            a.active == ActivePane::Left,
            a.right_mode == RightMode::Directory,
            a.input_mode == InputMode::Normal,
            a.input_buffer@ == Seq::<char>::empty(),
            a.status_msg@ == Seq::<char>::empty(),
            !a.should_quit,
            a.progress is None,
    {
        let copy = listing.duplicate();
        let left = Pane::new(copy);
        let right = Pane::new(listing);
        App {
            left,
            right,
            active: ActivePane::Left,
            right_mode: RightMode::Directory,
            input_mode: InputMode::Normal,
            input_buffer: String::new(),
            status_msg: String::new(),
            should_quit: false,
            progress: None,
        }
    }

    /// The pane with the focus.
    pub fn active_pane(&self) -> (r: &Pane)
        ensures
            *r == active_of(*self),
    {
        match self.active {
            ActivePane::Left => &self.left,
            ActivePane::Right => &self.right,
        }
    }

    /// The pane with the focus, to change it.
    pub fn active_pane_mut(&mut self) -> (r: &mut Pane)
        ensures
            *r == active_of(*old(self)),
            *final(self) == with_active(*old(self), *final(r)),
    {
        match self.active {
            ActivePane::Left => &mut self.left,
            ActivePane::Right => &mut self.right,
        }
    }

    /// The pane without the focus.
    pub fn other_pane(&self) -> (r: &Pane)
        ensures
            *r == other_of(*self),
    {
        match self.active {
            ActivePane::Left => &self.right,
            ActivePane::Right => &self.left,
        }
    }

    /// Moves the focus to the other pane, but only while the right half shows a
    /// directory.
    pub fn toggle_pane(&mut self)
        ensures
            *final(self) == pane_toggled(*old(self)),
    {
        if self.right_mode == RightMode::Directory {
            self.active = match self.active {
                ActivePane::Left => ActivePane::Right,
                ActivePane::Right => ActivePane::Left,
            };
        }
    }

    /// Switches the right half between the directory and the preview; turning the
    /// preview on moves the focus to the left pane.
    pub fn toggle_preview(&mut self)
        ensures
            *final(self) == preview_toggled(*old(self)),
    {
        self.right_mode = match self.right_mode {
            RightMode::Directory => {
                self.active = ActivePane::Left;
                RightMode::Preview
            },
            RightMode::Preview => RightMode::Directory,
        };
    }

    /// Replaces the status message.
    pub fn set_status(&mut self, msg: String)
        ensures
            *final(self) == (App { status_msg: msg, ..*old(self) }),
    {
        self.status_msg = msg;
    }

    /// Starts typing a search filter.
    pub fn start_search(&mut self)
        ensures
            typing(*old(self), *final(self), InputMode::Search),
    {
        self.input_mode = InputMode::Search;
        self.input_buffer = String::new();
    }

    /// Starts typing a path to go to, beginning with the focused pane's path.
    pub fn start_go_path(&mut self)
        ensures
            go_path_started(*old(self), *final(self)),
    {
        self.input_mode = InputMode::GoPath;
        self.input_buffer = self.active_pane().path.clone();
    }

    /// Starts renaming the entry under the cursor, beginning with its name; with
    /// no entry under the cursor nothing changes.
    pub fn start_rename(&mut self)
        ensures
            rename_started(*old(self), *final(self)),
    {
        let name = match self.active_pane().current_entry() {
            Some(e) => Some(e.name.clone()),
            None => None,
        };
        match name {
            Some(n) => {
                self.input_mode = InputMode::Rename;
                self.input_buffer = n;
            },
            None => {},
        }
    }

    /// Starts typing the name of a new file.
    pub fn start_new_file(&mut self)
        ensures
            typing(*old(self), *final(self), InputMode::NewFile),
    {
        self.input_mode = InputMode::NewFile;
        self.input_buffer = String::new();
    }

    /// Starts typing the name of a new directory.
    pub fn start_new_dir(&mut self)
        ensures
            typing(*old(self), *final(self), InputMode::NewDir),
    {
        self.input_mode = InputMode::NewDir;
        self.input_buffer = String::new();
    }

    /// Asks to confirm deleting what the focused pane acts on; with nothing to act
    /// on it says so and stays in the current mode.
    pub fn start_delete_confirm(&mut self)
        ensures
            delete_confirm_started(*old(self), *final(self)),
    {
        let entries = self.active_pane().action_entries();
        if entries.len() == 0 {
            self.set_status(owned("Nothing to delete"));
            return ;
        }
        let mut msg = String::new();
        if entries.len() == 1 {
            push_str(&mut msg, "Delete '");
            push_str(&mut msg, entries[0].name.as_str());
            push_str(&mut msg, "'? [y/N]");
        } else {
            push_str(&mut msg, "Delete ");
            push_decimal(&mut msg, entries.len() as u128);
            push_str(&mut msg, " items? [y/N]");
        }
        proof {
            assert(msg@ =~= delete_prompt(entries@));
        }
        self.set_status(msg);
        self.input_mode = InputMode::ConfirmDelete;
    }

    /// Leaves any input mode: back to normal, the typed text, the focused pane's
    /// filter and the status message all cleared.
    pub fn cancel_input(&mut self)
        ensures
            input_cancelled(*old(self), *final(self)),
    {
        self.input_mode = InputMode::Normal;
        self.input_buffer = String::new();
        self.active_pane_mut().filter = String::new();
        self.set_status(String::new());
    }
}

} // verus!
