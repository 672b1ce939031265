use vstd::prelude::*;

use crate::text::{
    chars_lt, chars_of, decimal, lemma_lex_irreflexive, lemma_lex_total, lemma_lex_transitive, lex_lt,
    lowercase, owned, push_char, to_lower,
};
use crate::paths::{file_extension, path_extension};
use crate::units::{lemma_scaled_size, push_scaled_size, scaled_size_text, tenths_text};

verus! {

/// One directory entry as the file manager sees it.
///
/// `modified` is the modification time as seconds and nanoseconds relative to the
/// Unix epoch (the seconds are negative before it, the nanoseconds below 10^9).
#[derive(Debug)]
pub struct FileEntry {
    pub name: String,
    pub path: String,
    pub is_dir: bool,
    pub is_symlink: bool,
    pub is_executable: bool,
    pub is_hidden: bool,
    pub size: u64,
    pub modified: Option<(i64, u32)>,
    pub permissions: u32,
    pub owner_uid: u32,
}

/// What a `symlink_metadata`/`metadata` pair tells about a path.
#[derive(Clone, Copy, Debug)]
pub struct EntryMeta {
    pub is_dir: bool,
    pub is_symlink: bool,
    pub permissions: u32,
    pub len: u64,
    pub modified: Option<(i64, u32)>,
    pub owner_uid: u32,
}

/// Which key a listing is ordered by.
#[derive(Clone, Copy, Debug, PartialEq, Eq, Structural)]
pub enum SortMode {
    Name,
    Size,
    Date,
    Type,
}

/// A name is hidden when it starts with a dot.
pub open spec fn hidden_name(name: Seq<char>) -> bool {
    name.len() > 0 && name[0] == '.'
}

/// Whether any of the three execute bits (0o111) is set.
pub open spec fn any_execute_bit(mode: u32) -> bool {
    mode & 0o111u32 != 0
}

impl FileEntry {
    /// The entry for `path`, named `name`, from what its metadata says.
    /// A directory's size counts as zero; an entry is executable when it is not a
    /// directory and some execute bit is set.
    pub fn from_path(path: String, name: String, meta: EntryMeta) -> (e: FileEntry)
        ensures
            e.name == name,
            e.path == path,
            e.is_dir == meta.is_dir,
            e.is_symlink == meta.is_symlink,
            e.is_executable == (!meta.is_dir && any_execute_bit(meta.permissions)),
            e.is_hidden == hidden_name(name@),
            e.size == (if meta.is_dir { 0 } else { meta.len }),
            e.modified == meta.modified,
            e.permissions == meta.permissions,
            e.owner_uid == meta.owner_uid,
    {
        let is_hidden = starts_with_dot(&name);
        let is_executable = !meta.is_dir && (meta.permissions & 0o111u32 != 0);
        let size = if meta.is_dir { 0 } else { meta.len };
        FileEntry {
            name,
            path,
            is_dir: meta.is_dir,
            is_symlink: meta.is_symlink,
            is_executable,
            is_hidden,
            size,
            modified: meta.modified,
            permissions: meta.permissions,
            owner_uid: meta.owner_uid,
        }
    }

    /// A copy of this entry, equal to it.
    pub fn duplicate(&self) -> (r: FileEntry)
        ensures
            r == *self,
    {
        FileEntry {
            name: self.name.clone(),
            path: self.path.clone(),
            is_dir: self.is_dir,
            is_symlink: self.is_symlink,
            is_executable: self.is_executable,
            is_hidden: self.is_hidden,
            size: self.size,
            modified: self.modified,
            permissions: self.permissions,
            owner_uid: self.owner_uid,
        }
    }
}

/// The two-character marker in front of a name: `~>` for a symbolic link,
/// ` /` for a directory, ` *` for an executable, two blanks otherwise.
pub open spec fn indicator_text(e: FileEntry) -> Seq<char> {
    if e.is_symlink {
        "~>"@
    } else if e.is_dir {
        " /"@
    } else if e.is_executable {
        " *"@
    } else {
        "  "@
    }
}

/// The size column: `<DIR>` for a directory, otherwise the byte count with
/// `B`, `K`, `M` or `G`.
pub open spec fn size_column_text(e: FileEntry) -> Seq<char> {
    if e.is_dir {
        "<DIR>"@
    } else {
        scaled_size_text(e.size, "B"@, "K"@, "M"@, "G"@)
    }
}

/// The size column of a directory reads `<DIR>`; that of another entry gives the
/// size with the units `B`, `K`, `M` and `G` as `lemma_scaled_size` describes:
/// below 1024 the exact byte count, above it the size rounded to the nearest
/// tenth of the unit.
pub proof fn lemma_size_column(e: FileEntry)
    ensures
        e.is_dir ==> size_column_text(e) == "<DIR>"@,
        !e.is_dir && e.size < 1024 ==> size_column_text(e) == decimal(e.size as nat) + "B"@,
        !e.is_dir && 0x400 <= e.size < 0x10_0000 ==> exists|t: nat|
            size_column_text(e) == #[trigger] tenths_text(t, "K"@) && -0x400 <= 2 * (10 * e.size - t
                * 0x400) <= 0x400,
        !e.is_dir && 0x10_0000 <= e.size < 0x4000_0000 ==> exists|t: nat|
            size_column_text(e) == #[trigger] tenths_text(t, "M"@) && -0x10_0000 <= 2 * (10 * e.size
                - t * 0x10_0000) <= 0x10_0000,
        !e.is_dir && 0x4000_0000 <= e.size < 0x20_0000_0000_0000 ==> exists|t: nat|
            size_column_text(e) == #[trigger] tenths_text(t, "G"@) && -0x4000_0000 <= 2 * (10
                * e.size - t * 0x4000_0000) <= 0x4000_0000,
{
    lemma_scaled_size(e.size, "B"@, "K"@, "M"@, "G"@);
}

/// The character for one permission bit: `c` when bit `bit` of `mode` is set.
pub open spec fn bit_char(mode: u32, bit: u32, c: char) -> char {
    if (mode >> bit) & 1u32 == 1u32 {
        c
    } else {
        '-'
    }
}

/// The `ls -l` style permission text: the kind (`d`, `l` or `-`) and then
/// read/write/execute for owner, group and others.
pub open spec fn permission_text(e: FileEntry) -> Seq<char> {
    let m = e.permissions;
    seq![
        if e.is_dir { 'd' } else if e.is_symlink { 'l' } else { '-' },
        bit_char(m, 8, 'r'), bit_char(m, 7, 'w'), bit_char(m, 6, 'x'),
        bit_char(m, 5, 'r'), bit_char(m, 4, 'w'), bit_char(m, 3, 'x'),
        bit_char(m, 2, 'r'), bit_char(m, 1, 'w'), bit_char(m, 0, 'x'),
    ]
}

/// The permission text has ten characters: `d` for a directory, `l` for a
/// symbolic link, `-` otherwise; then for owner, group and others in turn `r`,
/// `w` and `x` where the read (0o4), write (0o2) and execute (0o1) bit of that
/// class is set in the mode, and `-` where it is not.
pub proof fn lemma_permission_text(e: FileEntry)
    ensures
        ({
            let t = permission_text(e);
            let m = e.permissions;
            &&& t.len() == 10
            &&& t[0] == if e.is_dir { 'd' } else if e.is_symlink { 'l' } else { '-' }
            &&& t[1] == if m & 0o400 != 0 { 'r' } else { '-' }
            &&& t[2] == if m & 0o200 != 0 { 'w' } else { '-' }
            &&& t[3] == if m & 0o100 != 0 { 'x' } else { '-' }
            &&& t[4] == if m & 0o040 != 0 { 'r' } else { '-' }
            &&& t[5] == if m & 0o020 != 0 { 'w' } else { '-' }
            &&& t[6] == if m & 0o010 != 0 { 'x' } else { '-' }
            &&& t[7] == if m & 0o004 != 0 { 'r' } else { '-' }
            &&& t[8] == if m & 0o002 != 0 { 'w' } else { '-' }
            &&& t[9] == if m & 0o001 != 0 { 'x' } else { '-' }
        }),
{
    let m = e.permissions;
    assert(((m >> 8u32) & 1u32 == 1u32) == (m & 0o400u32 != 0)) by (bit_vector);
    assert(((m >> 7u32) & 1u32 == 1u32) == (m & 0o200u32 != 0)) by (bit_vector);
    assert(((m >> 6u32) & 1u32 == 1u32) == (m & 0o100u32 != 0)) by (bit_vector);
    assert(((m >> 5u32) & 1u32 == 1u32) == (m & 0o040u32 != 0)) by (bit_vector);
    assert(((m >> 4u32) & 1u32 == 1u32) == (m & 0o020u32 != 0)) by (bit_vector);
    assert(((m >> 3u32) & 1u32 == 1u32) == (m & 0o010u32 != 0)) by (bit_vector);
    assert(((m >> 2u32) & 1u32 == 1u32) == (m & 0o004u32 != 0)) by (bit_vector);
    assert(((m >> 1u32) & 1u32 == 1u32) == (m & 0o002u32 != 0)) by (bit_vector);
    assert(((m >> 0u32) & 1u32 == 1u32) == (m & 0o001u32 != 0)) by (bit_vector);
}

/// What is shown for a missing or unprintable modification time.
pub open spec fn unknown_time_text() -> Seq<char> {
    "????-??-?? ??:??"@
}

/// What chrono prints for a Unix timestamp in UTC with the pattern
/// `%Y-%m-%d %H:%M`, or `None` where it has no date for the timestamp.
pub uninterp spec fn utc_minute_text(secs: i64) -> Option<Seq<char>>;

/// `chrono::DateTime::from_timestamp(secs, 0)`, formatted with `%Y-%m-%d %H:%M`.
/// Trusted: the result is `utc_minute_text` of `secs`, a function of `secs` alone;
/// the calendar arithmetic and the formatting are chrono's and are not stated here.
#[verifier::external_body]
fn utc_minute_stamp(secs: i64) -> (r: Option<String>)
    ensures
        match r {
            Some(t) => utc_minute_text(secs) == Some(t@),
            None => utc_minute_text(secs) == None::<Seq<char>>,
        },
{
    match chrono::DateTime::from_timestamp(secs, 0) {
        Some(dt) => Some(dt.format("%Y-%m-%d %H:%M").to_string()),
        None => None,
    }
}

/// The whole seconds since the epoch of a time stamp; times before the epoch
/// count as the epoch.
pub open spec fn epoch_secs(t: (i64, u32)) -> i64 {
    if t.0 >= 0 {
        t.0
    } else {
        0
    }
}

/// The modification column: the UTC minute of the time, or question marks.
pub open spec fn modified_text(modified: Option<(i64, u32)>) -> Seq<char> {
    match modified {
        Some(t) => match utc_minute_text(epoch_secs(t)) {
            Some(x) => x,
            None => unknown_time_text(),
        },
        None => unknown_time_text(),
    }
}

/// The modification column from a formatted time, if there is one.
pub fn stamp_or_unknown(stamp: Option<String>) -> (r: String)
    ensures
        r@ == match stamp {
            Some(t) => t@,
            None => unknown_time_text(),
        },
{
    match stamp {
        Some(t) => t,
        None => owned("????-??-?? ??:??"),
    }
}

impl FileEntry {
    /// The type marker shown before the name.
    pub fn type_indicator(&self) -> (r: &'static str)
        ensures
            r@ == indicator_text(*self),
    {
        if self.is_symlink {
            "~>"
        } else if self.is_dir {
            " /"
        } else if self.is_executable {
            " *"
        } else {
            "  "
        }
    }

    /// The size column text.
    pub fn format_size(&self) -> (r: String)
        ensures
            r@ == size_column_text(*self),
    {
        if self.is_dir {
            return owned("<DIR>");
        }
        let mut s = String::new();
        push_scaled_size(&mut s, self.size, "B", "K", "M", "G");
        proof {
            assert(s@ =~= size_column_text(*self));
        }
        s
    }

    /// The modification time column text.
    pub fn format_modified(&self) -> (r: String)
        ensures
            r@ == modified_text(self.modified),
    {
        match self.modified {
            Some(t) => {
                let secs: i64 = if t.0 >= 0 {
                    t.0
                } else {
                    0
                };
                stamp_or_unknown(utc_minute_stamp(secs))
            },
            None => stamp_or_unknown(None),
        }
    }

    /// The permission column text, ten characters long.
    pub fn format_permissions(&self) -> (r: String)
        ensures
            r@ == permission_text(*self),
    {
        let mode = self.permissions;
        let mut s = String::new();
        push_char(&mut s, if self.is_dir { 'd' } else if self.is_symlink { 'l' } else { '-' });
        push_char(&mut s, if (mode >> 8u32) & 1u32 == 1u32 { 'r' } else { '-' });
        push_char(&mut s, if (mode >> 7u32) & 1u32 == 1u32 { 'w' } else { '-' });
        push_char(&mut s, if (mode >> 6u32) & 1u32 == 1u32 { 'x' } else { '-' });
        push_char(&mut s, if (mode >> 5u32) & 1u32 == 1u32 { 'r' } else { '-' });
        push_char(&mut s, if (mode >> 4u32) & 1u32 == 1u32 { 'w' } else { '-' });
        push_char(&mut s, if (mode >> 3u32) & 1u32 == 1u32 { 'x' } else { '-' });
        push_char(&mut s, if (mode >> 2u32) & 1u32 == 1u32 { 'r' } else { '-' });
        push_char(&mut s, if (mode >> 1u32) & 1u32 == 1u32 { 'w' } else { '-' });
        push_char(&mut s, if (mode >> 0u32) & 1u32 == 1u32 { 'x' } else { '-' });
        proof {
            assert(s@ =~= permission_text(*self));
        }
        s
    }
}

impl SortMode {
    /// The mode that follows this one: Name, Size, Date, Type, then Name again.
    pub fn next(self) -> (r: SortMode)
        ensures
            r == next_mode(self),
    {
        match self {
            SortMode::Name => SortMode::Size,
            SortMode::Size => SortMode::Date,
            SortMode::Date => SortMode::Type,
            SortMode::Type => SortMode::Name,
        }
    }

    /// The mode's name as shown in a pane title.
    pub fn label(self) -> (r: &'static str)
        ensures
            r@ == mode_label(self),
    {
        match self {
            SortMode::Name => "Name",
            SortMode::Size => "Size",
            SortMode::Date => "Date",
            SortMode::Type => "Type",
        }
    }
}

/// The cycle of sort modes.
pub open spec fn next_mode(m: SortMode) -> SortMode {
    match m {
        SortMode::Name => SortMode::Size,
        SortMode::Size => SortMode::Date,
        SortMode::Date => SortMode::Type,
        SortMode::Type => SortMode::Name,
    }
}

/// The label of a sort mode.
pub open spec fn mode_label(m: SortMode) -> Seq<char> {
    match m {
        SortMode::Name => "Name"@,
        SortMode::Size => "Size"@,
        SortMode::Date => "Date"@,
        SortMode::Type => "Type"@,
    }
}

/// Whether `s` starts with a dot.
pub fn starts_with_dot(s: &String) -> (r: bool)
    ensures
        r == hidden_name(s@),
{
    let cs = chars_of(s.as_str());
    cs.len() > 0 && cs[0] == '.'
}

/// The modification time used for ordering; an entry without one counts as the epoch.
pub open spec fn stamp_of(e: FileEntry) -> (i64, u32) {
    match e.modified {
        Some(t) => t,
        None => (0i64, 0u32),
    }
}

/// Strict order on (seconds, nanoseconds) time stamps.
pub open spec fn stamp_lt(a: (i64, u32), b: (i64, u32)) -> bool {
    a.0 < b.0 || (a.0 == b.0 && a.1 < b.1)
}

/// The text that orders entries by type: the lowercased extension, or nothing
/// when the path has none.
pub open spec fn extension_key(e: FileEntry) -> Seq<char> {
    match path_extension(e.path@) {
        Some(x) => lowercase(x),
        None => Seq::<char>::empty(),
    }
}

/// Whether `a` goes strictly before `b` in a listing sorted by `mode`.
/// Directories always come first; among entries of the same kind the order is
/// by lowercased name (`Name`), by size with the largest first (`Size`), by
/// modification time with the newest first (`Date`), or by lowercased extension
/// and then by exact name (`Type`).
pub open spec fn goes_before(a: FileEntry, b: FileEntry, mode: SortMode) -> bool {
    if a.is_dir != b.is_dir {
        a.is_dir
    } else {
        match mode {
            SortMode::Name => lex_lt(lowercase(a.name@), lowercase(b.name@)),
            SortMode::Size => a.size > b.size,
            SortMode::Date => stamp_lt(stamp_of(b), stamp_of(a)),
            SortMode::Type => lex_lt(extension_key(a), extension_key(b)) || (extension_key(a)
                == extension_key(b) && lex_lt(a.name@, b.name@)),
        }
    }
}

/// `perm` maps the positions `0..n` one to one into `0..n`.
pub open spec fn is_permutation(perm: Seq<int>, n: nat) -> bool {
    &&& perm.len() == n
    &&& forall|p: int| 0 <= p < n ==> 0 <= #[trigger] perm[p] < n
    &&& forall|p: int, q: int| 0 <= p < q < n ==> #[trigger] perm[p] != #[trigger] perm[q]
}

/// `after` is `before` rearranged by `perm`, ordered by `goes_before`, with
/// entries that neither goes before the other kept in the order they came in.
pub open spec fn stable_sort_by(
    before: Seq<FileEntry>,
    after: Seq<FileEntry>,
    mode: SortMode,
    perm: Seq<int>,
) -> bool {
    &&& is_permutation(perm, before.len())
    &&& after.len() == before.len()
    &&& forall|p: int| 0 <= p < after.len() ==> #[trigger] after[p] == before[perm[p]]
    &&& forall|p: int, q: int|
        0 <= p < q < after.len() ==> !goes_before(#[trigger] after[q], #[trigger] after[p], mode)
    &&& forall|p: int, q: int|
        0 <= p < q < after.len() && !goes_before(#[trigger] after[p], #[trigger] after[q], mode)
            ==> perm[p] < perm[q]
}

/// `after` is a stable sort of `before` by `mode`.
pub open spec fn is_stable_sort(before: Seq<FileEntry>, after: Seq<FileEntry>, mode: SortMode) -> bool {
    exists|perm: Seq<int>| stable_sort_by(before, after, mode, perm)
}

/// A sort key: whether the entry is a directory, two texts, a number and a time.
type KeyView = (bool, Seq<char>, Seq<char>, u64, (i64, u32));

struct SortKey {
    dir: bool,
    primary: Vec<char>,
    secondary: Vec<char>,
    number: u64,
    stamp: (i64, u32),
}

impl SortKey {
    spec fn key(&self) -> KeyView {
        (self.dir, self.primary@, self.secondary@, self.number, self.stamp)
    }
}

/// The key of an entry under a sort mode.
spec fn entry_key(e: FileEntry, mode: SortMode) -> KeyView {
    match mode {
        SortMode::Name => (e.is_dir, lowercase(e.name@), Seq::empty(), 0u64, (0i64, 0u32)),
        SortMode::Size => (e.is_dir, Seq::empty(), Seq::empty(), e.size, (0i64, 0u32)),
        SortMode::Date => (e.is_dir, Seq::empty(), Seq::empty(), 0u64, stamp_of(e)),
        SortMode::Type => (e.is_dir, extension_key(e), e.name@, 0u64, (0i64, 0u32)),
    }
}

/// Keys compare component by component: directories first, texts ascending,
/// the number and the time descending.
spec fn key_lt(a: KeyView, b: KeyView) -> bool {
    if a.0 != b.0 {
        a.0
    } else if a.1 != b.1 {
        lex_lt(a.1, b.1)
    } else if a.2 != b.2 {
        lex_lt(a.2, b.2)
    } else if a.3 != b.3 {
        a.3 > b.3
    } else {
        stamp_lt(b.4, a.4)
    }
}

proof fn lemma_key_total(a: KeyView, b: KeyView)
    ensures
        key_lt(a, b) || a == b || key_lt(b, a),
{
    lemma_lex_total(a.1, b.1);
    lemma_lex_total(a.2, b.2);
}

proof fn lemma_key_transitive(a: KeyView, b: KeyView, c: KeyView)
    requires
        key_lt(a, b),
        key_lt(b, c),
    ensures
        key_lt(a, c),
{
    if a.0 == b.0 && b.0 == c.0 {
        if a.1 != b.1 && b.1 != c.1 {
            lemma_lex_transitive(a.1, b.1, c.1);
            lemma_lex_irreflexive(a.1);
        } else if a.1 == b.1 && b.1 == c.1 && a.2 != b.2 && b.2 != c.2 {
            lemma_lex_transitive(a.2, b.2, c.2);
            lemma_lex_irreflexive(a.2);
        }
    }
}

proof fn lemma_key_asymmetric(a: KeyView, b: KeyView)
    requires
        key_lt(a, b),
    ensures
        !key_lt(b, a),
{
    if key_lt(b, a) {
        lemma_key_transitive(a, b, a);
        lemma_lex_irreflexive(a.1);
        lemma_lex_irreflexive(a.2);
    }
}

proof fn lemma_key_not_lt_transitive(a: KeyView, b: KeyView, c: KeyView)
    requires
        !key_lt(a, b),
        !key_lt(b, c),
    ensures
        !key_lt(a, c),
{
    lemma_key_total(a, b);
    lemma_key_total(b, c);
    if key_lt(a, c) {
        if key_lt(b, a) {
            lemma_key_transitive(b, a, c);
        }
        if key_lt(c, b) {
            lemma_key_transitive(a, c, b);
            lemma_key_transitive(c, b, a);
            lemma_key_asymmetric(a, c);
        }
    }
}

/// Comparing the keys of two entries is comparing the entries.
proof fn lemma_entry_key_order(a: FileEntry, b: FileEntry, mode: SortMode)
    ensures
        key_lt(entry_key(a, mode), entry_key(b, mode)) == goes_before(a, b, mode),
{
    lemma_lex_irreflexive(lowercase(a.name@));
    lemma_lex_irreflexive(extension_key(a));
    lemma_lex_irreflexive(a.name@);
}

fn key_less(a: &SortKey, b: &SortKey) -> (r: bool)
    ensures
        r == key_lt(a.key(), b.key()),
{
    if a.dir != b.dir {
        return a.dir;
    }
    proof {
        lemma_lex_irreflexive(a.primary@);
        lemma_lex_irreflexive(a.secondary@);
    }
    if chars_lt(&a.primary, &b.primary) {
        return true;
    }
    if chars_lt(&b.primary, &a.primary) {
        return false;
    }
    proof {
        lemma_lex_total(a.primary@, b.primary@);
    }
    if chars_lt(&a.secondary, &b.secondary) {
        return true;
    }
    if chars_lt(&b.secondary, &a.secondary) {
        return false;
    }
    proof {
        lemma_lex_total(a.secondary@, b.secondary@);
    }
    if a.number != b.number {
        return a.number > b.number;
    }
    b.stamp.0 < a.stamp.0 || (b.stamp.0 == a.stamp.0 && b.stamp.1 < a.stamp.1)
}

fn sort_key(e: &FileEntry, mode: SortMode) -> (k: SortKey)
    ensures
        k.key() == entry_key(*e, mode),
{
    let empty1: Vec<char> = Vec::new();
    let empty2: Vec<char> = Vec::new();
    match mode {
        SortMode::Name => {
            let lower = to_lower(e.name.as_str());
            SortKey {
                dir: e.is_dir,
                primary: chars_of(lower.as_str()),
                secondary: empty2,
                number: 0,
                stamp: (0, 0),
            }
        },
        SortMode::Size => SortKey {
            dir: e.is_dir,
            primary: empty1,
            secondary: empty2,
            number: e.size,
            stamp: (0, 0),
        },
        SortMode::Date => {
            let stamp = match e.modified {
                Some(t) => t,
                None => (0i64, 0u32),
            };
            SortKey { dir: e.is_dir, primary: empty1, secondary: empty2, number: 0, stamp }
        },
        SortMode::Type => {
            let ext = match file_extension(e.path.as_str()) {
                Some(x) => {
                    let lower = to_lower(x.as_str());
                    chars_of(lower.as_str())
                },
                None => empty1,
            };
            SortKey {
                dir: e.is_dir,
                primary: ext,
                secondary: chars_of(e.name.as_str()),
                number: 0,
                stamp: (0, 0),
            }
        },
    }
}

spec fn kv(keys: Seq<SortKey>, i: int) -> KeyView {
    keys[i].key()
}

/// The positions of `keys` in stable sorted order (insertion sort).
fn sorted_order(keys: &Vec<SortKey>) -> (order: Vec<usize>)
    ensures
        order.len() == keys.len(),
        forall|p: int| 0 <= p < order.len() ==> #[trigger] order@[p] < keys.len(),
        forall|p: int, q: int|
            0 <= p < q < order.len() ==> #[trigger] order@[p] != #[trigger] order@[q],
        forall|p: int, q: int|
            0 <= p < q < order.len() ==> !key_lt(
                kv(keys@, #[trigger] order@[q] as int),
                kv(keys@, #[trigger] order@[p] as int),
            ),
        forall|p: int, q: int|
            0 <= p < q < order.len() && !key_lt(
                kv(keys@, #[trigger] order@[p] as int),
                kv(keys@, #[trigger] order@[q] as int),
            ) ==> order@[p] < order@[q],
{
    let n = keys.len();
    let mut order: Vec<usize> = Vec::new();
    for i in 0..n
        invariant
            n == keys.len(),
            order.len() == i,
            forall|p: int| 0 <= p < order.len() ==> #[trigger] order@[p] < i,
            forall|p: int, q: int|
                0 <= p < q < order.len() ==> #[trigger] order@[p] != #[trigger] order@[q],
            forall|p: int, q: int|
                0 <= p < q < order.len() ==> !key_lt(
                    kv(keys@, #[trigger] order@[q] as int),
                    kv(keys@, #[trigger] order@[p] as int),
                ),
            forall|p: int, q: int|
                0 <= p < q < order.len() && !key_lt(
                    kv(keys@, #[trigger] order@[p] as int),
                    kv(keys@, #[trigger] order@[q] as int),
                ) ==> order@[p] < order@[q],
    {
        let mut j = order.len();
        while j > 0 && key_less(&keys[i], &keys[order[j - 1]])
            invariant
                n == keys.len(),
                i < n,
                order.len() == i,
                j <= order.len(),
                forall|p: int| 0 <= p < order.len() ==> #[trigger] order@[p] < i,
                forall|q: int|
                    j <= q < order.len() ==> key_lt(
                        kv(keys@, i as int),
                        kv(keys@, #[trigger] order@[q] as int),
                    ),
            decreases j,
        {
            j = j - 1;
        }
        let ghost old_order = order@;
        proof {
            assert forall|p: int| 0 <= p < j implies !key_lt(
                kv(keys@, i as int),
                kv(keys@, #[trigger] old_order[p] as int),
            ) by {
                if p < j - 1 {
                    lemma_key_not_lt_transitive(
                        kv(keys@, i as int),
                        kv(keys@, old_order[j - 1] as int),
                        kv(keys@, old_order[p] as int),
                    );
                }
            }
            assert forall|q: int| j <= q < old_order.len() implies !key_lt(
                kv(keys@, #[trigger] old_order[q] as int),
                kv(keys@, i as int),
            ) by {
                lemma_key_asymmetric(kv(keys@, i as int), kv(keys@, old_order[q] as int));
            }
        }
        order.insert(j, i);
        proof {
            assert(order@ =~= old_order.subrange(0, j as int).push(i).add(
                old_order.subrange(j as int, old_order.len() as int),
            ));
            assert forall|p: int, q: int| 0 <= p < q < order.len() implies !key_lt(
                kv(keys@, #[trigger] order@[q] as int),
                kv(keys@, #[trigger] order@[p] as int),
            ) by {
                if q < j {
                } else if q == j {
                } else if p < j {
                    assert(order@[q] == old_order[q - 1]);
                    lemma_key_not_lt_transitive(
                        kv(keys@, old_order[q - 1] as int),
                        kv(keys@, i as int),
                        kv(keys@, old_order[p] as int),
                    );
                } else if p == j {
                } else {
                    assert(order@[q] == old_order[q - 1]);
                    assert(order@[p] == old_order[p - 1]);
                }
            }
            assert forall|p: int, q: int|
                0 <= p < q < order.len() && !key_lt(
                    kv(keys@, #[trigger] order@[p] as int),
                    kv(keys@, #[trigger] order@[q] as int),
                ) implies order@[p] < order@[q] by {
                if q < j {
                } else if q == j {
                } else if p < j {
                    assert(order@[q] == old_order[q - 1]);
                } else if p == j {
                    assert(order@[q] == old_order[q - 1]);
                } else {
                    assert(order@[q] == old_order[q - 1]);
                    assert(order@[p] == old_order[p - 1]);
                }
            }
            assert forall|p: int, q: int| 0 <= p < q < order.len() implies #[trigger] order@[p]
                != #[trigger] order@[q] by {
                if q < j {
                } else if q == j {
                } else if p < j {
                    assert(order@[q] == old_order[q - 1]);
                } else if p == j {
                    assert(order@[q] == old_order[q - 1]);
                } else {
                    assert(order@[q] == old_order[q - 1]);
                    assert(order@[p] == old_order[p - 1]);
                }
            }
        }
    }
    order
}

/// In a sorted listing every directory comes before every other entry.
pub proof fn lemma_directories_first(
    before: Seq<FileEntry>,
    after: Seq<FileEntry>,
    mode: SortMode,
)
    requires
        is_stable_sort(before, after, mode),
    ensures
        forall|p: int, q: int|
            0 <= p < q < after.len() && (#[trigger] after[q]).is_dir ==> (#[trigger] after[p]).is_dir,
{
    let perm = choose|perm: Seq<int>| stable_sort_by(before, after, mode, perm);
    assert forall|p: int, q: int|
        0 <= p < q < after.len() && (#[trigger] after[q]).is_dir implies (#[trigger] after[p]).is_dir by {
        assert(!goes_before(after[q], after[p], mode));
    }
}

/// In a sorted listing, of two entries of the same kind the later one never
/// comes first by the mode's key: by `Name` its whole lowercased name is not
/// lexicographically smaller; by `Size` it is not larger; by `Date` its
/// modification time (the epoch where there is none) is not later; by `Type` its
/// lowercased extension (empty where there is none) is not smaller, and with
/// equal extensions its exact name is not smaller.
pub proof fn lemma_sorted_by_key(before: Seq<FileEntry>, after: Seq<FileEntry>, mode: SortMode)
    requires
        is_stable_sort(before, after, mode),
    ensures
        forall|p: int, q: int|
            0 <= p < q < after.len() && (#[trigger] after[p]).is_dir == (#[trigger] after[q]).is_dir
                ==> {
                let a = after[p];
                let b = after[q];
                let ta = match a.modified {
                    Some(t) => t,
                    None => (0i64, 0u32),
                };
                let tb = match b.modified {
                    Some(t) => t,
                    None => (0i64, 0u32),
                };
                let xa = match path_extension(a.path@) {
                    Some(x) => lowercase(x),
                    None => Seq::<char>::empty(),
                };
                let xb = match path_extension(b.path@) {
                    Some(x) => lowercase(x),
                    None => Seq::<char>::empty(),
                };
                &&& mode == SortMode::Name ==> !lex_lt(lowercase(b.name@), lowercase(a.name@))
                &&& mode == SortMode::Size ==> a.size >= b.size
                &&& mode == SortMode::Date ==> (ta.0 > tb.0 || (ta.0 == tb.0 && ta.1 >= tb.1))
                &&& mode == SortMode::Type ==> !lex_lt(xb, xa) && (xa == xb ==> !lex_lt(
                    b.name@,
                    a.name@,
                ))
            },
{
    let perm = choose|perm: Seq<int>| stable_sort_by(before, after, mode, perm);
    assert forall|p: int, q: int|
        0 <= p < q < after.len() && (#[trigger] after[p]).is_dir == (#[trigger] after[q]).is_dir
            implies {
            let a = after[p];
            let b = after[q];
            let ta = match a.modified {
                Some(t) => t,
                None => (0i64, 0u32),
            };
            let tb = match b.modified {
                Some(t) => t,
                None => (0i64, 0u32),
            };
            let xa = match path_extension(a.path@) {
                Some(x) => lowercase(x),
                None => Seq::<char>::empty(),
            };
            let xb = match path_extension(b.path@) {
                Some(x) => lowercase(x),
                None => Seq::<char>::empty(),
            };
            &&& mode == SortMode::Name ==> !lex_lt(lowercase(b.name@), lowercase(a.name@))
            &&& mode == SortMode::Size ==> a.size >= b.size
            &&& mode == SortMode::Date ==> (ta.0 > tb.0 || (ta.0 == tb.0 && ta.1 >= tb.1))
            &&& mode == SortMode::Type ==> !lex_lt(xb, xa) && (xa == xb ==> !lex_lt(
                b.name@,
                a.name@,
            ))
        } by {
        assert(!goes_before(after[q], after[p], mode));
    }
}

/// Sorting keeps every entry: each entry of the sorted listing is one of the
/// entries it was given, each entry given is in the sorted listing, and the
/// lengths agree.
pub proof fn lemma_sort_keeps_entries(before: Seq<FileEntry>, after: Seq<FileEntry>, mode: SortMode)
    requires
        is_stable_sort(before, after, mode),
    ensures
        after.len() == before.len(),
        forall|p: int| 0 <= p < after.len() ==> before.contains(#[trigger] after[p]),
        forall|p: int| 0 <= p < before.len() ==> after.contains(#[trigger] before[p]),
{
    let perm = choose|perm: Seq<int>| stable_sort_by(before, after, mode, perm);
    assert forall|p: int| 0 <= p < after.len() implies before.contains(#[trigger] after[p]) by {
        assert(before[perm[p]] == after[p]);
    }
    lemma_permutation_onto(perm, before.len());
    assert forall|p: int| 0 <= p < before.len() implies after.contains(#[trigger] before[p]) by {
        assert(perm.contains(p));
        let q = choose|q: int| 0 <= q < perm.len() && perm[q] == p;
        assert(after[q] == before[p]);
    }
}

/// The order in which a stable sort puts positions `i` and `j` of `before`: by
/// `goes_before`, and by position where neither entry goes before the other.
spec fn stable_lt(before: Seq<FileEntry>, mode: SortMode, i: int, j: int) -> bool {
    goes_before(before[i], before[j], mode) || (!goes_before(before[j], before[i], mode) && i < j)
}

proof fn lemma_goes_before_asymmetric(a: FileEntry, b: FileEntry, mode: SortMode)
    requires
        goes_before(a, b, mode),
    ensures
        !goes_before(b, a, mode),
{
    lemma_entry_key_order(a, b, mode);
    lemma_entry_key_order(b, a, mode);
    lemma_key_asymmetric(entry_key(a, mode), entry_key(b, mode));
}

/// A permutation of `0..n` reaches every position.
proof fn lemma_permutation_onto(perm: Seq<int>, n: nat)
    requires
        is_permutation(perm, n),
    ensures
        forall|j: int| 0 <= j < n ==> #[trigger] perm.contains(j),
{
    assert(perm.no_duplicates()) by {
        assert forall|a: int, b: int|
            0 <= a < perm.len() && 0 <= b < perm.len() && a != b implies perm[a] != perm[b] by {
            if a < b {
                assert(perm[a] != perm[b]);
            } else {
                assert(perm[b] != perm[a]);
            }
        }
    }
    perm.unique_seq_to_set();
    let range = vstd::set_lib::set_int_range(0, n as int);
    vstd::set_lib::lemma_int_range(0, n as int);
    assert(perm.to_set().subset_of(range)) by {
        assert forall|x: int| perm.to_set().contains(x) implies range.contains(x) by {
            assert(perm.contains(x));
            let p = choose|p: int| 0 <= p < perm.len() && perm[p] == x;
            assert(0 <= perm[p] < n);
        }
    }
    vstd::seq_lib::seq_to_set_is_finite(perm);
    vstd::set_lib::lemma_subset_equality(perm.to_set(), range);
    assert forall|j: int| 0 <= j < n implies #[trigger] perm.contains(j) by {
        assert(range.contains(j));
        assert(perm.to_set().contains(j));
    }
}

/// The positions a stable sort takes entries from rise in `stable_lt`.
proof fn lemma_stable_order(
    before: Seq<FileEntry>,
    after: Seq<FileEntry>,
    mode: SortMode,
    perm: Seq<int>,
    p: int,
    q: int,
)
    requires
        stable_sort_by(before, after, mode, perm),
        0 <= p < q < after.len(),
    ensures
        stable_lt(before, mode, perm[p], perm[q]),
{
    assert(after[p] == before[perm[p]]);
    assert(after[q] == before[perm[q]]);
    assert(!goes_before(after[q], after[p], mode));
    if !goes_before(after[p], after[q], mode) {
        assert(perm[p] < perm[q]);
    }
}

/// Two stable sorts of one listing take their first `k` entries from the same
/// positions.
proof fn lemma_stable_perms_agree(
    before: Seq<FileEntry>,
    a1: Seq<FileEntry>,
    a2: Seq<FileEntry>,
    mode: SortMode,
    p1: Seq<int>,
    p2: Seq<int>,
    k: nat,
)
    requires
        stable_sort_by(before, a1, mode, p1),
        stable_sort_by(before, a2, mode, p2),
        k <= before.len(),
    ensures
        forall|i: int| 0 <= i < k ==> p1[i] == p2[i],
    decreases k,
{
    if k > 0 {
        lemma_stable_perms_agree(before, a1, a2, mode, p1, p2, (k - 1) as nat);
        let p = k - 1;
        let a = p1[p];
        let b = p2[p];
        if a != b {
            lemma_permutation_onto(p1, before.len());
            lemma_permutation_onto(p2, before.len());
            if stable_lt(before, mode, a, b) {
                assert(0 <= a < before.len());
                assert(p2.contains(a));
                let q = choose|q: int| 0 <= q < p2.len() && #[trigger] p2[q] == a;
                if q < p {
                    assert(p1[q] == p2[q]);
                    assert(p1[q] != p1[p]);
                } else {
                    lemma_stable_order(before, a2, mode, p2, p, q);
                    if goes_before(before[a], before[b], mode) {
                        lemma_goes_before_asymmetric(before[a], before[b], mode);
                    }
                    if goes_before(before[b], before[a], mode) {
                        lemma_goes_before_asymmetric(before[b], before[a], mode);
                    }
                }
            } else {
                assert(0 <= b < before.len());
                assert(p1.contains(b));
                let q = choose|q: int| 0 <= q < p1.len() && #[trigger] p1[q] == b;
                if q < p {
                    assert(p1[q] == p2[q]);
                    assert(p2[q] != p2[p]);
                } else {
                    lemma_stable_order(before, a1, mode, p1, p, q);
                    if goes_before(before[a], before[b], mode) {
                        lemma_goes_before_asymmetric(before[a], before[b], mode);
                    }
                    if goes_before(before[b], before[a], mode) {
                        lemma_goes_before_asymmetric(before[b], before[a], mode);
                    }
                }
            }
        }
    }
}

/// A stable sort has one outcome: two stable sorts of the same listing by the
/// same mode are the same listing.
pub proof fn lemma_stable_sort_unique(
    before: Seq<FileEntry>,
    a1: Seq<FileEntry>,
    a2: Seq<FileEntry>,
    mode: SortMode,
)
    requires
        is_stable_sort(before, a1, mode),
        is_stable_sort(before, a2, mode),
    ensures
        a1 == a2,
{
    let p1 = choose|perm: Seq<int>| stable_sort_by(before, a1, mode, perm);
    let p2 = choose|perm: Seq<int>| stable_sort_by(before, a2, mode, perm);
    lemma_stable_perms_agree(before, a1, a2, mode, p1, p2, before.len());
    assert forall|i: int| 0 <= i < a1.len() implies a1[i] == a2[i] by {
        assert(a1[i] == before[p1[i]]);
        assert(a2[i] == before[p2[i]]);
    }
    assert(a1 =~= a2);
}

/// Cycling the sort mode four times comes back to where it started, passing
/// through all four modes.
pub proof fn lemma_sort_mode_cycle(m: SortMode)
    ensures
        next_mode(next_mode(next_mode(next_mode(m)))) == m,
        next_mode(m) != m,
        next_mode(next_mode(m)) != m,
        next_mode(next_mode(next_mode(m))) != m,
{
}

/// Sorts a listing in place by `mode`, keeping entries that compare equal in
/// the order they came in (a stable sort). Directories always come first.
pub fn sort_entries(entries: &mut Vec<FileEntry>, mode: SortMode)
    ensures
        is_stable_sort(old(entries)@, final(entries)@, mode),
{
    let n = entries.len();
    let mut keys: Vec<SortKey> = Vec::new();
    for i in 0..n
        invariant
            n == entries.len(),
            keys.len() == i,
            forall|k: int| 0 <= k < i ==> #[trigger] keys@[k].key() == entry_key(entries@[k], mode),
    {
        keys.push(sort_key(&entries[i], mode));
    }
    let order = sorted_order(&keys);
    let mut result: Vec<FileEntry> = Vec::new();
    for p in 0..n
        invariant
            n == entries.len(),
            n == keys.len(),
            order.len() == n,
            forall|q: int| 0 <= q < n ==> #[trigger] order@[q] < n,
            result.len() == p,
            forall|k: int| 0 <= k < p ==> #[trigger] result@[k] == entries@[order@[k] as int],
    {
        let e = entries[order[p]].duplicate();
        result.push(e);
    }
    let ghost perm: Seq<int> = order@.map_values(|v: usize| v as int);
    proof {
        let before = entries@;
        let after = result@;
        assert forall|p: int, q: int| 0 <= p < q < after.len() implies !goes_before(
            #[trigger] after[q],
            #[trigger] after[p],
            mode,
        ) by {
            assert(!key_lt(kv(keys@, order@[q] as int), kv(keys@, order@[p] as int)));
            lemma_entry_key_order(after[q], after[p], mode);
        }
        assert forall|p: int, q: int|
            0 <= p < q < after.len() && !goes_before(
                #[trigger] after[p],
                #[trigger] after[q],
                mode,
            ) implies perm[p] < perm[q] by {
            lemma_entry_key_order(after[p], after[q], mode);
            assert(kv(keys@, order@[p] as int) == entry_key(after[p], mode));
            assert(kv(keys@, order@[q] as int) == entry_key(after[q], mode));
        }
        assert forall|p: int, q: int| 0 <= p < q < n implies #[trigger] perm[p]
            != #[trigger] perm[q] by {
            assert(order@[p] != order@[q]);
        }
        assert(stable_sort_by(before, after, mode, perm));
    }
    *entries = result;
}

} // verus!
