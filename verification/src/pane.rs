use std::collections::HashSet;

use vstd::prelude::*;

use crate::entry::{is_stable_sort, sort_entries, FileEntry, SortMode};
use crate::paths::{file_name_of, parent_of, path_file_name, path_parent};
use crate::text::{chars_contain, chars_of, contains_run, lowercase, to_lower};

verus! {

broadcast use vstd::std_specs::hash::group_hash_axioms;

/// What reading a directory gave: its canonical path and its entries in the
/// order the directory listed them.
pub struct DirListing {
    pub path: String,
    pub entries: Vec<FileEntry>,
}

impl DirListing {
    /// A copy of this listing, equal to it.
    pub fn duplicate(&self) -> (r: DirListing)
        ensures
            r.path == self.path,
            r.entries@ == self.entries@,
    {
        let mut entries: Vec<FileEntry> = Vec::new();
        for i in 0..self.entries.len()
            invariant
                entries@ == self.entries@.take(i as int),
        {
            entries.push(self.entries[i].duplicate());
            proof {
                assert(self.entries@.take(i + 1) =~= self.entries@.take(i as int).push(self.entries@[i as int]));
            }
        }
        proof {
            assert(self.entries@.take(self.entries@.len() as int) =~= self.entries@);
        }
        DirListing { path: self.path.clone(), entries }
    }
}

/// One side of the file manager: a directory listing with a cursor, a scroll
/// position, a selection and a search filter.
#[derive(Debug)]
pub struct Pane {
    pub path: String,
    pub entries: Vec<FileEntry>,
    pub cursor: usize,
    pub scroll_offset: usize,
    pub selected: HashSet<usize>,
    pub show_hidden: bool,
    pub sort_mode: SortMode,
    pub filter: String,
}

/// Whether an entry passes a search filter: every entry passes an empty filter,
/// otherwise the lowercased name must contain the lowercased filter.
pub open spec fn passes_filter(e: FileEntry, filter: Seq<char>) -> bool {
    filter.len() == 0 || contains_run(lowercase(e.name@), lowercase(filter))
}

/// The positions among the first `n` entries that pass the filter, in order.
pub open spec fn visible_upto(entries: Seq<FileEntry>, filter: Seq<char>, n: nat) -> Seq<usize>
    decreases n,
{
    if n == 0 {
        Seq::empty()
    } else {
        let prev = visible_upto(entries, filter, (n - 1) as nat);
        if passes_filter(entries[n - 1], filter) {
            prev.push((n - 1) as usize)
        } else {
            prev
        }
    }
}

/// The positions of the entries that pass the filter, in listing order.
pub open spec fn visible(entries: Seq<FileEntry>, filter: Seq<char>) -> Seq<usize> {
    visible_upto(entries, filter, entries.len())
}

/// The visible positions of a pane.
pub open spec fn visible_of(p: Pane) -> Seq<usize> {
    visible(p.entries@, p.filter@)
}

/// The entry under the cursor, if the cursor is on a visible entry.
pub open spec fn current_of(p: Pane) -> Option<FileEntry> {
    let v = visible_of(p);
    if p.cursor < v.len() {
        Some(p.entries@[v[p.cursor as int] as int])
    } else {
        None
    }
}

/// The pane with another cursor position.
pub open spec fn with_cursor(p: Pane, cursor: usize) -> Pane {
    Pane { cursor, ..p }
}

/// The selection after toggling the entry under the cursor.
pub open spec fn toggled_selection(p: Pane) -> Set<usize> {
    if p.cursor < visible_of(p).len() {
        let i = visible_of(p)[p.cursor as int];
        if p.selected@.contains(i) {
            p.selected@.remove(i)
        } else {
            p.selected@.insert(i)
        }
    } else {
        p.selected@
    }
}

/// The selection after selecting all: empty when exactly the visible positions
/// are selected, else every visible position.
pub open spec fn all_selection(p: Pane) -> Set<usize> {
    if p.selected@ == visible_of(p).to_set() {
        Set::<usize>::empty()
    } else {
        visible_of(p).to_set()
    }
}

/// `new` is `old` with only the selection changed, to `sel`.
pub open spec fn reselected(old: Pane, new: Pane, sel: Set<usize>) -> bool {
    new == (Pane { selected: new.selected, ..old }) && new.selected@ == sel
}

/// Every selected position is a position of the listing.
pub open spec fn selection_in_range(p: Pane) -> bool {
    forall|i: usize| p.selected@.contains(i) ==> i < p.entries@.len()
}

/// Visible positions are increasing and below `n`.
pub proof fn lemma_visible_upto_bounds(entries: Seq<FileEntry>, filter: Seq<char>, n: nat)
    requires
        n <= entries.len(),
        n <= usize::MAX,
    ensures
        forall|k: int|
            0 <= k < visible_upto(entries, filter, n).len() ==> #[trigger] visible_upto(
                entries,
                filter,
                n,
            )[k] < n,
        forall|k: int, l: int|
            0 <= k < l < visible_upto(entries, filter, n).len() ==> #[trigger] visible_upto(
                entries,
                filter,
                n,
            )[k] < #[trigger] visible_upto(entries, filter, n)[l],
        visible_upto(entries, filter, n).len() <= n,
    decreases n,
{
    if n > 0 {
        lemma_visible_upto_bounds(entries, filter, (n - 1) as nat);
        let prev = visible_upto(entries, filter, (n - 1) as nat);
        let v = visible_upto(entries, filter, n);
        if passes_filter(entries[n - 1], filter) {
            assert(v == prev.push((n - 1) as usize));
            assert forall|k: int, l: int| 0 <= k < l < v.len() implies #[trigger] v[k] < #[trigger] v[l] by {
                if l < prev.len() {
                    assert(v[k] == prev[k] && v[l] == prev[l]);
                } else {
                    assert(v[k] == prev[k]);
                }
            }
            assert forall|k: int| 0 <= k < v.len() implies #[trigger] v[k] < n by {
                if k < prev.len() {
                    assert(v[k] == prev[k]);
                }
            }
        }
    }
}

proof fn lemma_visible_upto_members(entries: Seq<FileEntry>, filter: Seq<char>, n: nat)
    requires
        n <= entries.len(),
        n <= usize::MAX,
    ensures
        forall|i: int|
            0 <= i < n ==> (visible_upto(entries, filter, n).contains(i as usize) <==> passes_filter(
                #[trigger] entries[i],
                filter,
            )),
        forall|x: usize| #[trigger] visible_upto(entries, filter, n).contains(x) ==> x < n,
    decreases n,
{
    if n > 0 {
        lemma_visible_upto_members(entries, filter, (n - 1) as nat);
        let prev = visible_upto(entries, filter, (n - 1) as nat);
        let v = visible_upto(entries, filter, n);
        if passes_filter(entries[n - 1], filter) {
            assert(v == prev.push((n - 1) as usize));
            assert forall|x: usize| v.contains(x) implies x < n by {
                let k = choose|k: int| 0 <= k < v.len() && v[k] == x;
                if k < prev.len() {
                    assert(prev[k] == x);
                    assert(prev.contains(x));
                }
            }
            assert forall|i: int| 0 <= i < n implies (v.contains(i as usize) <==> passes_filter(
                #[trigger] entries[i],
                filter,
            )) by {
                if i < n - 1 {
                    if v.contains(i as usize) {
                        let k = choose|k: int| 0 <= k < v.len() && v[k] == i as usize;
                        if k < prev.len() {
                            assert(prev[k] == i as usize);
                        }
                    }
                    if prev.contains(i as usize) {
                        let k = choose|k: int| 0 <= k < prev.len() && prev[k] == i as usize;
                        assert(v[k] == i as usize);
                    }
                } else {
                    assert(v[v.len() - 1] == i as usize);
                }
            }
        } else {
            assert(v == prev);
            if prev.contains((n - 1) as usize) {
                assert(((n - 1) as usize) < n - 1);
            }
        }
    }
}

/// A listing position is visible exactly when the filter is empty or the
/// entry's lowercased name contains the lowercased filter as a run of
/// consecutive characters.
pub proof fn lemma_visible_members(entries: Seq<FileEntry>, filter: Seq<char>)
    requires
        entries.len() <= usize::MAX,
    ensures
        forall|i: int|
            0 <= i < entries.len() ==> (visible(entries, filter).contains(i as usize) <==> (
            filter.len() == 0 || exists|s: int|
                0 <= s && s + lowercase(filter).len() <= lowercase((#[trigger] entries[i]).name@).len()
                    && #[trigger] lowercase(entries[i].name@).subrange(s, s + lowercase(filter).len())
                    == lowercase(filter))),
{
    lemma_visible_upto_members(entries, filter, entries.len());
}

/// The visible positions of a listing are increasing and in range.
pub proof fn lemma_visible_bounds(entries: Seq<FileEntry>, filter: Seq<char>)
    requires
        entries.len() <= usize::MAX,
    ensures
        forall|k: int|
            0 <= k < visible(entries, filter).len() ==> #[trigger] visible(entries, filter)[k]
                < entries.len(),
        forall|k: int, l: int|
            0 <= k < l < visible(entries, filter).len() ==> #[trigger] visible(entries, filter)[k]
                < #[trigger] visible(entries, filter)[l],
        visible(entries, filter).len() <= entries.len(),
{
    lemma_visible_upto_bounds(entries, filter, entries.len());
}

impl Pane {
    /// A pane showing `listing`: hidden entries left out, sorted by name.
    pub fn new(listing: DirListing) -> (p: Pane)
        ensures
            fresh(p, listing),
    {
        let mut pane = Pane {
            path: String::new(),
            entries: Vec::new(),
            cursor: 0,
            scroll_offset: 0,
            selected: HashSet::new(),
            show_hidden: false,
            sort_mode: SortMode::Name,
            filter: String::new(),
        };
        pane.load_dir(listing);
        pane
    }

    /// Shows `listing`, what was read at a directory: keeps the entries the
    /// hidden-entry setting allows, sorts them, clears the selection and the
    /// filter, and puts the cursor and the view at the top.
    pub fn load_dir(&mut self, listing: DirListing)
        ensures
            loaded(*old(self), *final(self), listing),
            final(self).cursor == 0,
    {
        let n = listing.entries.len();
        let mut entries: Vec<FileEntry> = Vec::new();
        for i in 0..n
            invariant
                n == listing.entries.len(),
                entries@ == kept_upto(listing.entries@, self.show_hidden, i as nat),
        {
            if self.show_hidden || !listing.entries[i].is_hidden {
                entries.push(listing.entries[i].duplicate());
            }
        }
        let ghost unsorted = entries@;
        sort_entries(&mut entries, self.sort_mode);

        self.path = listing.path;
        self.entries = entries;
        self.selected = HashSet::new();
        self.filter = String::new();
        self.cursor = 0;
        self.scroll_offset = 0;
        proof {
            assert(unsorted == kept(listing.entries@, old(self).show_hidden));
        }
    }

    /// Shows `listing`, what was read again at the pane's own directory, keeping
    /// the cursor where it was as far as the new listing allows.
    pub fn reload(&mut self, listing: DirListing)
        ensures
            reloaded(*old(self), *final(self), listing),
    {
        let old_cursor = self.cursor;
        self.load_dir(listing);
        let len = self.entries.len();
        let last = if len == 0 {
            0
        } else {
            len - 1
        };
        self.cursor = if old_cursor < last {
            old_cursor
        } else {
            last
        };
    }

    /// The directory that entering would open: the current entry's path, when
    /// the current entry is a directory.
    pub fn enter_target(&self) -> (r: Option<String>)
        ensures
            match r {
                Some(t) => enters(*self) && t@ == current_of(*self)->0.path@,
                None => !enters(*self),
            },
    {
        match self.current_entry() {
            Some(e) => if e.is_dir {
                Some(e.path.clone())
            } else {
                None
            },
            None => None,
        }
    }

    /// Enters the current entry when it is a directory, showing `listing`, what
    /// was read at its path; otherwise nothing changes.
    pub fn enter_dir(&mut self, listing: DirListing)
        ensures
            enters(*old(self)) ==> loaded(*old(self), *final(self), listing) && final(self).cursor
                == 0,
            !enters(*old(self)) ==> *final(self) == *old(self),
    {
        let go = match self.current_entry() {
            Some(e) => e.is_dir,
            None => false,
        };
        if go {
            self.load_dir(listing);
        }
    }

    /// The directory that going up would open: the parent of the pane's path.
    pub fn parent_target(&self) -> (r: Option<String>)
        ensures
            match r {
                Some(t) => path_parent(self.path@) == Some(t@),
                None => path_parent(self.path@) is None,
            },
    {
        parent_of(self.path.as_str())
    }

    /// Goes up to the parent directory, showing `listing`, what was read there,
    /// with the cursor on the directory just left; without a parent nothing changes.
    pub fn go_parent(&mut self, listing: DirListing)
        ensures
            path_parent(old(self).path@) is Some ==> {
                &&& loaded(*old(self), *final(self), listing)
                &&& lands_on(
                    final(self).entries@,
                    path_file_name(old(self).path@),
                    final(self).cursor,
                )
            },
            path_parent(old(self).path@) is None ==> *final(self) == *old(self),
    {
        let parent = parent_of(self.path.as_str());
        if parent.is_none() {
            return ;
        }
        let current_name = file_name_of(self.path.as_str());
        self.load_dir(listing);
        match current_name {
            Some(name) => {
                let n = self.entries.len();
                let mut i: usize = 0;
                while i < n
                    invariant
                        n == self.entries.len(),
                        i <= n,
                        self.cursor == 0,
                        loaded(*old(self), *self, listing),
                        path_parent(old(self).path@) is Some,
                        path_file_name(old(self).path@) == Some(name@),
                        forall|j: int| 0 <= j < i ==> #[trigger] self.entries@[j].name@ != name@,
                    decreases n - i,
                {
                    if self.entries[i].name == name {
                        self.cursor = i;
                        return ;
                    }
                    i = i + 1;
                }
            },
            None => {},
        }
    }

    /// Goes to the home directory, showing `home`, what was read there, when
    /// there is one; otherwise nothing changes.
    pub fn go_home(&mut self, home: Option<DirListing>)
        ensures
            match home {
                Some(l) => loaded(*old(self), *final(self), l) && final(self).cursor == 0,
                None => *final(self) == *old(self),
            },
    {
        match home {
            Some(l) => self.load_dir(l),
            None => {},
        }
    }

    /// Shows or hides hidden entries, then reloads with `listing`.
    pub fn toggle_hidden(&mut self, listing: DirListing)
        ensures
            reloaded(
                Pane { show_hidden: !old(self).show_hidden, ..*old(self) },
                *final(self),
                listing,
            ),
    {
        self.show_hidden = !self.show_hidden;
        self.reload(listing);
    }

    /// Switches to the next sort mode, then reloads with `listing`.
    pub fn cycle_sort(&mut self, listing: DirListing)
        ensures
            reloaded(
                Pane { sort_mode: crate::entry::next_mode(old(self).sort_mode), ..*old(self) },
                *final(self),
                listing,
            ),
    {
        self.sort_mode = self.sort_mode.next();
        self.reload(listing);
    }

    /// Selects the entry under the cursor, or unselects it when it is selected;
    /// with no entry under the cursor nothing changes.
    pub fn toggle_select(&mut self)
        ensures
            reselected(*old(self), *final(self), toggled_selection(*old(self))),
    {
        let filtered = self.filtered_entries();
        if self.cursor < filtered.len() {
            let real_idx = filtered[self.cursor].0;
            if self.selected.contains(&real_idx) {
                self.selected.remove(&real_idx);
            } else {
                self.selected.insert(real_idx);
            }
        }
    }

    /// Whether exactly the positions in `filtered`, the visible ones, are selected.
    fn selection_is_shown(&self, filtered: &Vec<(usize, &FileEntry)>) -> (r: bool)
        requires
            filtered.len() == visible_of(*self).len(),
            forall|m: int|
                0 <= m < filtered.len() ==> (#[trigger] filtered@[m]).0 == visible_of(*self)[m],
        ensures
            r == (self.selected@ == visible_of(*self).to_set()),
    {
        let ghost v = visible_of(*self);
        for k in 0..filtered.len()
            invariant
                filtered.len() == v.len(),
                v == visible_of(*self),
                forall|m: int| 0 <= m < filtered.len() ==> (#[trigger] filtered@[m]).0 == v[m],
                forall|j: int| 0 <= j < k ==> self.selected@.contains(#[trigger] v[j]),
        {
            if !self.selected.contains(&filtered[k].0) {
                proof {
                    assert(v.contains(v[k as int]));
                    assert(v.to_set().contains(v[k as int]));
                }
                return false;
            }
        }
        let ghost mut seen: Seq<usize> = Seq::empty();
        for idx in it: self.selected.iter()
            invariant
                filtered.len() == v.len(),
                v == visible_of(*self),
                forall|m: int| 0 <= m < filtered.len() ==> (#[trigger] filtered@[m]).0 == v[m],
                forall|j: int| 0 <= j < v.len() ==> self.selected@.contains(#[trigger] v[j]),
                seen == it.seq().take(it.index()).unref(),
                it.seq().unref().to_set() == self.selected@,
                it.index() == it.seq().len() ==> seen.to_set() == self.selected@,
                forall|j: int| 0 <= j < seen.len() ==> v.contains(#[trigger] seen[j]),
        {
            let i: usize = *idx;
            let mut found = false;
            for k in 0..filtered.len()
                invariant
                    filtered.len() == v.len(),
                    forall|m: int| 0 <= m < filtered.len() ==> (#[trigger] filtered@[m]).0 == v[m],
                    found ==> v.contains(i),
                    !found ==> forall|j: int| 0 <= j < k ==> v[j] != i,
            {
                if filtered[k].0 == i {
                    found = true;
                    proof {
                        assert(v[k as int] == i);
                    }
                }
            }
            proof {
                assert(it.seq().unref()[it.index() as int] == i);
                assert(it.seq().unref().contains(i));
                assert(self.selected@.contains(i));
            }
            if !found {
                proof {
                    if v.to_set().contains(i) {
                        assert(v.contains(i));
                        let j = choose|j: int| 0 <= j < v.len() && v[j] == i;
                        assert(v[j] != i);
                    }
                }
                return false;
            }
            proof {
                let next = seen.push(i);
                assert(next.drop_last() == seen);
                seen = next;
                assert(seen =~= it.seq().take(it.index() + 1).unref());
                assert(it.seq().take(it.seq().len() as int) =~= it.seq());
            }
        }
        proof {
            assert forall|x: usize| self.selected@.contains(x) <==> v.to_set().contains(x) by {
                if self.selected@.contains(x) {
                    assert(seen.to_set().contains(x));
                    assert(seen.contains(x));
                    let j = choose|j: int| 0 <= j < seen.len() && seen[j] == x;
                    assert(v.contains(seen[j]));
                }
                if v.to_set().contains(x) {
                    assert(v.contains(x));
                    let j = choose|j: int| 0 <= j < v.len() && v[j] == x;
                    assert(self.selected@.contains(v[j]));
                }
            }
            assert(self.selected@ =~= v.to_set());
        }
        true
    }

    /// Selects every visible entry, or clears the selection when exactly the
    /// visible entries are selected.
    pub fn select_all(&mut self)
        ensures
            reselected(*old(self), *final(self), all_selection(*old(self))),
    {
        let filtered = self.filtered_entries();
        if self.selection_is_shown(&filtered) {
            self.selected.clear();
        } else {
            let mut all: HashSet<usize> = HashSet::new();
            for k in 0..filtered.len()
                invariant
                    filtered.len() == visible_of(*self).len(),
                    forall|m: int|
                        0 <= m < filtered.len() ==> (#[trigger] filtered@[m]).0 == visible_of(
                            *self,
                        )[m],
                    forall|x: usize|
                        all@.contains(x) <==> exists|j: int|
                            0 <= j < k && #[trigger] visible_of(*self)[j] == x,
            {
                all.insert(filtered[k].0);
                proof {
                    let v = visible_of(*self);
                    assert forall|x: usize|
                        all@.contains(x) <==> exists|j: int|
                            0 <= j < k + 1 && #[trigger] v[j] == x by {
                        if x == v[k as int] {
                            assert(v[k as int] == x);
                        }
                    }
                }
            }
            proof {
                let v = visible_of(*self);
                assert forall|x: usize| all@.contains(x) <==> v.to_set().contains(x) by {
                    if all@.contains(x) {
                        let j = choose|j: int| 0 <= j < v.len() && #[trigger] v[j] == x;
                        assert(v.contains(x));
                    }
                    if v.to_set().contains(x) {
                        assert(v.contains(x));
                        let j = choose|j: int| 0 <= j < v.len() && v[j] == x;
                        assert(v[j] == x);
                    }
                }
                assert(all@ =~= v.to_set());
            }
            self.selected = all;
        }
    }

    /// The selected entries, each once; positions beyond the listing are skipped.
    pub fn selected_entries(&self) -> (r: Vec<FileEntry>)
        ensures
            holds_selection(*self, r@),
    {
        let mut r: Vec<FileEntry> = Vec::new();
        let ghost mut order: Seq<usize> = Seq::empty();
        for idx in it: self.selected.iter()
            invariant
                order == it.seq().take(it.index()).unref(),
                it.seq().unref().no_duplicates(),
                it.seq().unref().to_set() == self.selected@,
                it.index() == it.seq().len() ==> order.to_set() == self.selected@,
                r@ == picked(self.entries@, order),
        {
            let i: usize = *idx;
            if i < self.entries.len() {
                r.push(self.entries[i].duplicate());
            }
            proof {
                let next = order.push(i);
                assert(next.drop_last() == order);
                order = next;
                assert(order =~= it.seq().take(it.index() + 1).unref());
                assert(it.seq().take(it.seq().len() as int) =~= it.seq());
            }
        }
        proof {
            assert(order.no_duplicates());
            assert(order.to_set() == self.selected@);
        }
        r
    }

    /// What an operation acts on: the selected entries, or, when none of them
    /// exists, the entry under the cursor (or nothing).
    pub fn action_entries(&self) -> (r: Vec<FileEntry>)
        ensures
            acts_on(*self, r@),
    {
        let sel = self.selected_entries();
        proof {
            let order = choose|order: Seq<usize>|
                order.no_duplicates() && order.to_set() == self.selected@ && sel@ == #[trigger] picked(
                    self.entries@,
                    order,
                );
            lemma_picked_empty(self.entries@, order);
            if has_valid_selection(*self) {
                let i = choose|i: usize| self.selected@.contains(i) && i < self.entries@.len();
                assert(order.to_set().contains(i));
                assert(order.contains(i));
                let k = choose|k: int| 0 <= k < order.len() && order[k] == i;
                assert(order[k] < self.entries@.len());
            } else {
                assert forall|k: int| 0 <= k < order.len() implies #[trigger] order[k] >= self.entries@.len() by {
                    assert(order.to_set().contains(order[k]));
                }
            }
        }
        if sel.len() == 0 {
            let mut r: Vec<FileEntry> = Vec::new();
            match self.current_entry() {
                Some(e) => r.push(e.duplicate()),
                None => {},
            }
            r
        } else {
            sel
        }
    }

    /// How many entries the listing has.
    pub fn file_count(&self) -> (r: usize)
        ensures
            r == self.entries@.len(),
    {
        self.entries.len()
    }

    /// How many positions are selected.
    pub fn selected_count(&self) -> (r: usize)
        ensures
            r == self.selected@.len(),
    {
        self.selected.len()
    }

    /// The visible entries with their positions in the listing.
    pub fn filtered_entries(&self) -> (r: Vec<(usize, &FileEntry)>)
        ensures
            r.len() == visible_of(*self).len(),
            forall|k: int|
                0 <= k < r.len() ==> (#[trigger] r@[k]).0 == visible_of(*self)[k] && *r@[k].1
                    == self.entries@[visible_of(*self)[k] as int],
    {
        let n = self.entries.len();
        let mut r: Vec<(usize, &FileEntry)> = Vec::new();
        let empty = self.filter.as_str().is_empty();
        let lower = chars_of(to_lower(self.filter.as_str()).as_str());
        for i in 0..n
            invariant
                n == self.entries.len(),
                empty == (self.filter@.len() == 0),
                lower@ == lowercase(self.filter@),
                r.len() == visible_upto(self.entries@, self.filter@, i as nat).len(),
                forall|k: int|
                    0 <= k < r.len() ==> (#[trigger] r@[k]).0 == visible_upto(
                        self.entries@,
                        self.filter@,
                        i as nat,
                    )[k] && *r@[k].1 == self.entries@[visible_upto(
                        self.entries@,
                        self.filter@,
                        i as nat,
                    )[k] as int],
        {
            let keep = if empty {
                true
            } else {
                let name_lower = chars_of(to_lower(self.entries[i].name.as_str()).as_str());
                chars_contain(&name_lower, &lower)
            };
            if keep {
                r.push((i, &self.entries[i]));
            }
        }
        r
    }

    /// The entry under the cursor, if any.
    pub fn current_entry(&self) -> (r: Option<&FileEntry>)
        ensures
            match r {
                Some(e) => current_of(*self) == Some(*e),
                None => current_of(*self) is None,
            },
    {
        let filtered = self.filtered_entries();
        if self.cursor < filtered.len() {
            Some(filtered[self.cursor].1)
        } else {
            None
        }
    }

    /// Moves the cursor by `delta` visible entries, stopping at the first and the
    /// last one; with nothing visible the cursor goes to zero.
    pub fn move_cursor(&mut self, delta: isize)
        requires
            visible_of(*old(self)).len() > 0 && delta < 0 ==> delta != isize::MIN,
            visible_of(*old(self)).len() > 0 && delta >= 0 ==> old(self).cursor + delta
                <= usize::MAX,
        ensures
            *final(self) == with_cursor(
                *old(self),
                cursor_after_move(old(self).cursor, delta, visible_of(*old(self)).len()),
            ),
    {
        let len = self.filtered_entries().len();
        if len == 0 {
            self.cursor = 0;
            return ;
        }
        if delta < 0 {
            let back = (-delta) as usize;
            self.cursor = if self.cursor >= back {
                self.cursor - back
            } else {
                0
            };
        } else {
            let target = self.cursor + delta as usize;
            self.cursor = if target < len - 1 {
                target
            } else {
                len - 1
            };
        }
    }

    /// Scrolls just enough that the cursor row is within a window of `height` rows.
    pub fn ensure_visible(&mut self, height: usize)
        ensures
            *final(self) == (Pane {
                scroll_offset: scroll_after(old(self).cursor, old(self).scroll_offset, height),
                ..*old(self)
            }),
    {
        self.scroll_offset = scroll_for(self.cursor, self.scroll_offset, height);
    }
}

/// The entries among the first `n` of a directory read that a pane keeps: all of
/// them when hidden entries are shown, otherwise those that are not hidden.
pub open spec fn kept_upto(entries: Seq<FileEntry>, show_hidden: bool, n: nat) -> Seq<FileEntry>
    decreases n,
{
    if n == 0 {
        Seq::empty()
    } else {
        let prev = kept_upto(entries, show_hidden, (n - 1) as nat);
        if show_hidden || !entries[n - 1].is_hidden {
            prev.push(entries[n - 1])
        } else {
            prev
        }
    }
}

/// The entries of a directory read that a pane keeps, in read order.
pub open spec fn kept(entries: Seq<FileEntry>, show_hidden: bool) -> Seq<FileEntry> {
    kept_upto(entries, show_hidden, entries.len())
}

/// `new` is `old` after loading `listing`, with the cursor not yet placed: the
/// path is the listing's, the entries are the kept ones sorted by the pane's sort
/// mode, the selection and the filter are empty, the view is scrolled to the top,
/// and the hidden-entry setting and the sort mode stay.
pub open spec fn loaded(old: Pane, new: Pane, listing: DirListing) -> bool {
    &&& new.path == listing.path
    &&& is_stable_sort(kept(listing.entries@, old.show_hidden), new.entries@, old.sort_mode)
    &&& new.selected@ == Set::<usize>::empty()
    &&& new.filter@ == Seq::<char>::empty()
    &&& new.scroll_offset == 0
    &&& new.show_hidden == old.show_hidden
    &&& new.sort_mode == old.sort_mode
}

/// `p` is a new pane showing `listing`: hidden entries left out, sorted by
/// name, nothing selected or filtered, cursor and view at the top.
pub open spec fn fresh(p: Pane, listing: DirListing) -> bool {
    &&& p.path == listing.path
    &&& is_stable_sort(kept(listing.entries@, false), p.entries@, SortMode::Name)
    &&& p.selected@ == Set::<usize>::empty()
    &&& p.filter@ == Seq::<char>::empty()
    &&& p.cursor == 0
    &&& p.scroll_offset == 0
    &&& !p.show_hidden
    &&& p.sort_mode == SortMode::Name
}

/// The cursor after a reload: where it was, but no further than the last entry.
pub open spec fn reload_cursor(old_cursor: usize, len: nat) -> usize {
    if len == 0 {
        0
    } else if old_cursor < len - 1 {
        old_cursor
    } else {
        (len - 1) as usize
    }
}

/// `new` is `old` after reloading with `listing`.
pub open spec fn reloaded(old: Pane, new: Pane, listing: DirListing) -> bool {
    &&& loaded(old, new, listing)
    &&& new.cursor == reload_cursor(old.cursor, new.entries@.len())
}

/// Whether entering the pane's current entry opens a directory.
pub open spec fn enters(p: Pane) -> bool {
    match current_of(p) {
        Some(e) => e.is_dir,
        None => false,
    }
}

/// Whether `cursor` is where the cursor belongs after going up from a directory
/// named `name`: on the first entry with that name, or at the top.
pub open spec fn lands_on(entries: Seq<FileEntry>, name: Option<Seq<char>>, cursor: usize) -> bool {
    match name {
        Some(n) => if exists|i: int| 0 <= i < entries.len() && #[trigger] entries[i].name@ == n {
            &&& cursor < entries.len()
            &&& entries[cursor as int].name@ == n
            &&& forall|j: int| 0 <= j < cursor ==> #[trigger] entries[j].name@ != n
        } else {
            cursor == 0
        },
        None => cursor == 0,
    }
}

/// The entries at the positions of `order` that exist in the listing, in the
/// order of `order`.
pub open spec fn picked(entries: Seq<FileEntry>, order: Seq<usize>) -> Seq<FileEntry>
    decreases order.len(),
{
    if order.len() == 0 {
        Seq::empty()
    } else {
        let prev = picked(entries, order.drop_last());
        if order.last() < entries.len() {
            prev.push(entries[order.last() as int])
        } else {
            prev
        }
    }
}

/// `r` holds the selected entries that exist, each once, in some order of the
/// selection (the order in which the set is walked is not fixed).
pub open spec fn holds_selection(p: Pane, r: Seq<FileEntry>) -> bool {
    exists|order: Seq<usize>|
        order.no_duplicates() && order.to_set() == p.selected@ && r == #[trigger] picked(
            p.entries@,
            order,
        )
}

/// `r` is what an operation acts on in pane `p`: the selected entries, or, when
/// no selected position exists, the entry under the cursor (or nothing).
pub open spec fn acts_on(p: Pane, r: Seq<FileEntry>) -> bool {
    &&& has_valid_selection(p) ==> holds_selection(p, r)
    &&& !has_valid_selection(p) ==> r == match current_of(p) {
        Some(e) => seq![e],
        None => Seq::<FileEntry>::empty(),
    }
}

/// Whether some selected position is a position of the listing.
pub open spec fn has_valid_selection(p: Pane) -> bool {
    exists|i: usize| p.selected@.contains(i) && i < p.entries@.len()
}

/// What an operation acts on is empty exactly when no selected position is in the
/// listing and there is no entry under the cursor.
pub proof fn lemma_acts_on_empty(p: Pane, acts: Seq<FileEntry>)
    requires
        acts_on(p, acts),
    ensures
        (acts.len() == 0) == (!has_valid_selection(p) && current_of(p) is None),
{
    if has_valid_selection(p) {
        let order = choose|order: Seq<usize>|
            order.no_duplicates() && order.to_set() == p.selected@ && acts == #[trigger] picked(
                p.entries@,
                order,
            );
        lemma_picked_empty(p.entries@, order);
        let i = choose|i: usize| p.selected@.contains(i) && i < p.entries@.len();
        assert(order.to_set().contains(i));
        assert(order.contains(i));
        let k = choose|k: int| 0 <= k < order.len() && order[k] == i;
        assert(order[k] < p.entries@.len());
    }
}

/// No entry is picked exactly when no position of `order` is in range.
pub proof fn lemma_picked_empty(entries: Seq<FileEntry>, order: Seq<usize>)
    ensures
        (picked(entries, order).len() == 0) == (forall|k: int|
            0 <= k < order.len() ==> #[trigger] order[k] >= entries.len()),
    decreases order.len(),
{
    if order.len() > 0 {
        lemma_picked_empty(entries, order.drop_last());
        let prev = order.drop_last();
        assert forall|k: int| 0 <= k < prev.len() implies prev[k] == order[k] by {}
        if picked(entries, order).len() == 0 {
            assert forall|k: int| 0 <= k < order.len() implies #[trigger] order[k] >= entries.len() by {
                if k < prev.len() {
                    assert(prev[k] == order[k]);
                }
            }
        }
    }
}

/// Every entry kept with hidden entries left out is not hidden, and is one of
/// the entries read.
pub proof fn lemma_kept_upto(entries: Seq<FileEntry>, show_hidden: bool, n: nat)
    requires
        n <= entries.len(),
    ensures
        forall|k: int|
            0 <= k < kept_upto(entries, show_hidden, n).len() ==> (show_hidden || !(
            #[trigger] kept_upto(entries, show_hidden, n)[k]).is_hidden) && entries.contains(
                kept_upto(entries, show_hidden, n)[k],
            ),
    decreases n,
{
    if n > 0 {
        lemma_kept_upto(entries, show_hidden, (n - 1) as nat);
        let prev = kept_upto(entries, show_hidden, (n - 1) as nat);
        let cur = kept_upto(entries, show_hidden, n);
        assert forall|k: int| 0 <= k < cur.len() implies (show_hidden || !(
        #[trigger] cur[k]).is_hidden) && entries.contains(cur[k]) by {
            if k < prev.len() {
                assert(cur[k] == prev[k]);
            } else {
                assert(cur[k] == entries[n - 1]);
            }
        }
    }
}

/// A loaded pane shows only entries that were read, and no hidden entry unless
/// hidden entries are shown.
pub proof fn lemma_loaded_entries(old: Pane, new: Pane, listing: DirListing)
    requires
        loaded(old, new, listing),
    ensures
        forall|k: int|
            0 <= k < new.entries@.len() ==> listing.entries@.contains(#[trigger] new.entries@[k])
                && (new.show_hidden || !new.entries@[k].is_hidden),
{
    let before = kept(listing.entries@, old.show_hidden);
    lemma_kept_upto(listing.entries@, old.show_hidden, listing.entries@.len());
    crate::entry::lemma_sort_keeps_entries(before, new.entries@, old.sort_mode);
    assert forall|k: int| 0 <= k < new.entries@.len() implies listing.entries@.contains(
        #[trigger] new.entries@[k],
    ) && (new.show_hidden || !new.entries@[k].is_hidden) by {
        assert(before.contains(new.entries@[k]));
        let i = choose|i: int| 0 <= i < before.len() && before[i] == new.entries@[k];
        assert(before[i] == new.entries@[k]);
    }
}

/// A loaded pane shows every entry that was read and that its hidden-entry
/// setting allows: all of them when hidden entries are shown, every entry that
/// is not hidden otherwise.
pub proof fn lemma_loaded_keeps(old: Pane, new: Pane, listing: DirListing)
    requires
        loaded(old, new, listing),
    ensures
        forall|i: int|
            0 <= i < listing.entries@.len() && (old.show_hidden || !(
            #[trigger] listing.entries@[i]).is_hidden) ==> new.entries@.contains(listing.entries@[i]),
{
    let before = kept(listing.entries@, old.show_hidden);
    lemma_kept_all(listing.entries@, old.show_hidden, listing.entries@.len());
    crate::entry::lemma_sort_keeps_entries(before, new.entries@, old.sort_mode);
    assert forall|i: int|
        0 <= i < listing.entries@.len() && (old.show_hidden || !(
        #[trigger] listing.entries@[i]).is_hidden) implies new.entries@.contains(
        listing.entries@[i],
    ) by {
        assert(before.contains(listing.entries@[i]));
        let k = choose|k: int| 0 <= k < before.len() && before[k] == listing.entries@[i];
        assert(new.entries@.contains(before[k]));
    }
}

proof fn lemma_kept_all(entries: Seq<FileEntry>, show_hidden: bool, n: nat)
    requires
        n <= entries.len(),
    ensures
        forall|i: int|
            0 <= i < n && (show_hidden || !(#[trigger] entries[i]).is_hidden) ==> kept_upto(
                entries,
                show_hidden,
                n,
            ).contains(entries[i]),
    decreases n,
{
    if n > 0 {
        lemma_kept_all(entries, show_hidden, (n - 1) as nat);
        let prev = kept_upto(entries, show_hidden, (n - 1) as nat);
        let cur = kept_upto(entries, show_hidden, n);
        assert forall|i: int|
            0 <= i < n && (show_hidden || !(#[trigger] entries[i]).is_hidden) implies cur.contains(
            entries[i],
        ) by {
            if i < n - 1 {
                let k = choose|k: int| 0 <= k < prev.len() && prev[k] == entries[i];
                if show_hidden || !entries[n - 1].is_hidden {
                    assert(cur[k] == prev[k]);
                } else {
                    assert(cur == prev);
                }
            } else {
                assert(cur[cur.len() - 1] == entries[i]);
            }
        }
    }
}

/// A loaded pane has nothing selected, so its selection is in range.
pub proof fn lemma_loaded_selection(old: Pane, new: Pane, listing: DirListing)
    requires
        loaded(old, new, listing),
    ensures
        selection_in_range(new),
{
}

/// Toggling the selection twice without moving the cursor gives back the
/// selection.
pub proof fn lemma_toggle_select_twice(p: Pane, q: Pane)
    requires
        reselected(p, q, toggled_selection(p)),
    ensures
        toggled_selection(q) == p.selected@,
{
    if p.cursor < visible_of(p).len() {
        let i = visible_of(p)[p.cursor as int];
        if p.selected@.contains(i) {
            assert(p.selected@.remove(i).insert(i) =~= p.selected@);
        } else {
            assert(p.selected@.insert(i).remove(i) =~= p.selected@);
        }
    }
}

/// Selecting and unselecting keep the selection within the listing.
pub proof fn lemma_selection_stays_in_range(p: Pane, q: Pane, r: Pane)
    requires
        selection_in_range(p),
        p.entries@.len() <= usize::MAX,
        reselected(p, q, toggled_selection(p)),
        reselected(p, r, all_selection(p)),
    ensures
        selection_in_range(q),
        selection_in_range(r),
{
    lemma_visible_bounds(p.entries@, p.filter@);
    if r.selected@.len() > 0 {
        assert forall|i: usize| r.selected@.contains(i) implies i < r.entries@.len() by {
            let v = visible_of(p);
            assert(v.to_set().contains(i));
            let k = choose|k: int| 0 <= k < v.len() && v[k] == i;
            assert(v[k] < p.entries@.len());
        }
    }
}

/// Select-all selects every visible entry, or clears the selection when exactly
/// the visible entries were selected; so a second select-all undoes the first:
/// it clears what the first selected, or selects again what the first cleared.
pub proof fn lemma_select_all_twice(p: Pane, q: Pane)
    requires
        reselected(p, q, all_selection(p)),
    ensures
        p.selected@ != visible_of(p).to_set() ==> q.selected@ == visible_of(p).to_set()
            && all_selection(q) == Set::<usize>::empty(),
        p.selected@ == visible_of(p).to_set() ==> q.selected@ == Set::<usize>::empty()
            && all_selection(q) == p.selected@,
{
}

/// After a move with something visible, the cursor is on a visible entry; a
/// move up keeps it there only when it was there.
pub proof fn lemma_cursor_in_range(cursor: usize, delta: isize, len: nat)
    requires
        len > 0,
        len <= usize::MAX,
        delta >= 0 || cursor < len,
    ensures
        cursor_after_move(cursor, delta, len) < len,
{
}

/// After scrolling into view, the cursor row lies in the window of `height` rows,
/// and the window moves no more than that needs: it stays where it is when the
/// cursor is already in it, puts the cursor on its first row when the cursor was
/// above it, and on its last row when the cursor was below it.
pub proof fn lemma_cursor_visible(cursor: usize, scroll: usize, height: usize)
    requires
        height > 0,
    ensures
        scroll_after(cursor, scroll, height) <= cursor < scroll_after(cursor, scroll, height)
            + height,
        scroll <= cursor < scroll + height ==> scroll_after(cursor, scroll, height) == scroll,
        cursor < scroll ==> scroll_after(cursor, scroll, height) == cursor,
        cursor >= scroll + height ==> scroll_after(cursor, scroll, height) + height - 1 == cursor,
{
}

/// After a reload the cursor stays where it was when that is still an entry of
/// the listing, goes to the last entry when it was past it, and to zero when the
/// listing is empty.
pub proof fn lemma_reload_cursor_in_range(old_cursor: usize, len: nat)
    requires
        len <= usize::MAX,
    ensures
        len > 0 ==> reload_cursor(old_cursor, len) < len,
        len == 0 ==> reload_cursor(old_cursor, len) == 0,
        old_cursor < len ==> reload_cursor(old_cursor, len) == old_cursor,
        len > 0 && old_cursor >= len ==> reload_cursor(old_cursor, len) == len - 1,
{
}

/// `p` shows `listing` under its own settings: the pane's path is the listing's,
/// and its entries are those that its hidden-entry setting keeps, sorted by its
/// sort mode.
pub open spec fn shows(p: Pane, listing: DirListing) -> bool {
    &&& p.path == listing.path
    &&& is_stable_sort(kept(listing.entries@, p.show_hidden), p.entries@, p.sort_mode)
}

/// With an empty filter every position is visible, in order.
proof fn lemma_visible_unfiltered(entries: Seq<FileEntry>, filter: Seq<char>, n: nat)
    requires
        filter.len() == 0,
        n <= entries.len(),
        n <= usize::MAX,
    ensures
        visible_upto(entries, filter, n).len() == n,
        forall|k: int| 0 <= k < n ==> #[trigger] visible_upto(entries, filter, n)[k] == k,
    decreases n,
{
    if n > 0 {
        lemma_visible_unfiltered(entries, filter, (n - 1) as nat);
        let prev = visible_upto(entries, filter, (n - 1) as nat);
        assert(visible_upto(entries, filter, n) == prev.push((n - 1) as usize));
    }
}

/// Showing hidden entries and hiding them again (or the other way round), while
/// the directory does not change, gives back the setting, the path and the
/// entries; in between the pane shows the directory under the flipped setting.
pub proof fn lemma_toggle_hidden_twice(p: Pane, q: Pane, r: Pane, listing: DirListing)
    requires
        shows(p, listing),
        reloaded(Pane { show_hidden: !p.show_hidden, ..p }, q, listing),
        reloaded(Pane { show_hidden: !q.show_hidden, ..q }, r, listing),
    ensures
        q.show_hidden == !p.show_hidden,
        shows(q, listing),
        r.show_hidden == p.show_hidden,
        r.sort_mode == p.sort_mode,
        r.path == p.path,
        r.entries@ == p.entries@,
{
    crate::entry::lemma_stable_sort_unique(
        kept(listing.entries@, p.show_hidden),
        r.entries@,
        p.entries@,
        p.sort_mode,
    );
}

/// Entering a directory and going back up, while the file tree does not change,
/// returns to the same directory and entries, with the cursor on the first entry
/// named like the directory that was entered.
///
/// `here` is what was read at the pane's directory, before and after; `inside` is
/// what was read at the entered directory, whose path is the entry's own path, a
/// path whose parent is the pane's directory and whose file name is the entry's
/// name.
pub proof fn lemma_enter_then_parent(
    p: Pane,
    q: Pane,
    r: Pane,
    here: DirListing,
    inside: DirListing,
    e: FileEntry,
)
    requires
        p.entries@.len() <= usize::MAX,
        shows(p, here),
        current_of(p) == Some(e),
        e.is_dir,
        inside.path == e.path,
        path_parent(e.path@) == Some(p.path@),
        path_file_name(e.path@) == Some(e.name@),
        enters(p) ==> loaded(p, q, inside) && q.cursor == 0,
        !enters(p) ==> q == p,
        path_parent(q.path@) is Some ==> {
            &&& loaded(q, r, here)
            &&& lands_on(r.entries@, path_file_name(q.path@), r.cursor)
        },
        path_parent(q.path@) is None ==> r == q,
    ensures
        r.path == p.path,
        r.entries@ == p.entries@,
        r.show_hidden == p.show_hidden,
        r.sort_mode == p.sort_mode,
        current_of(r) is Some,
        current_of(r)->0.name@ == e.name@,
        forall|j: int| 0 <= j < r.cursor ==> #[trigger] r.entries@[j].name@ != e.name@,
{
    crate::entry::lemma_stable_sort_unique(
        kept(here.entries@, p.show_hidden),
        r.entries@,
        p.entries@,
        p.sort_mode,
    );
    lemma_visible_bounds(p.entries@, p.filter@);
    let i = visible_of(p)[p.cursor as int] as int;
    assert(r.entries@[i].name@ == e.name@);
    lemma_visible_unfiltered(r.entries@, r.filter@, r.entries@.len());
}

/// The scroll offset that keeps `cursor` within a window of `height` rows.
pub fn scroll_for(cursor: usize, scroll: usize, height: usize) -> (r: usize)
    ensures
        r == scroll_after(cursor, scroll, height),
{
    if height == 0 {
        scroll
    } else if cursor < scroll {
        cursor
    } else if cursor - scroll >= height {
        cursor - height + 1
    } else {
        scroll
    }
}

/// Where the cursor lands after moving by `delta` among `len` visible entries.
pub open spec fn cursor_after_move(cursor: usize, delta: isize, len: nat) -> usize {
    if len == 0 {
        0
    } else if delta < 0 {
        if cursor >= -delta {
            (cursor + delta) as usize
        } else {
            0
        }
    } else if cursor + delta < len - 1 {
        (cursor + delta) as usize
    } else {
        (len - 1) as usize
    }
}

/// The scroll offset that keeps `cursor` within a window of `height` rows.
pub open spec fn scroll_after(cursor: usize, scroll: usize, height: usize) -> usize {
    if height == 0 {
        scroll
    } else if cursor < scroll {
        cursor
    } else if cursor >= scroll + height {
        (cursor - height + 1) as usize
    } else {
        scroll
    }
}

} // verus!
