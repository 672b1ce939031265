use vstd::prelude::*;
use vstd::string::StringSliceAdditionalSpecFns;
use vstd::utf8::{
    decode_utf8, decode_utf8_encode_utf8, encode_utf8, encode_utf8_valid_utf8, is_char_boundary,
    valid_utf8_split,
};

use crate::app::{active_of, ActivePane, App, InputMode};
use crate::entry::{indicator_text, mode_label, modified_text, permission_text, size_column_text, FileEntry};
use crate::pane::{current_of, scroll_after, scroll_for, visible_of, Pane};
use crate::text::{blanks, chars_of, decimal, owned, push_char, push_decimal, push_str, texts, utf8_len};

verus! {

broadcast use vstd::utf8::encode_utf8_decode_utf8;

/// The UTF-8 length of a text, in bytes.
pub open spec fn byte_len(t: Seq<char>) -> nat {
    encode_utf8(t).len()
}

/// Whether cutting a path display at `max_len` bytes, keeping its end, falls on a
/// character boundary (or does not cut at all).
pub open spec fn path_cut_ok(path: Seq<char>, max_len: nat) -> bool {
    let b = encode_utf8(path);
    b.len() <= max_len || max_len < 4 || is_char_boundary(b, b.len() - (max_len - 3))
}

/// A path shortened to `max_len` bytes by keeping its end after `...`; paths that
/// fit, and limits below four, leave it whole.
pub open spec fn truncated_path(path: Seq<char>, max_len: nat) -> Seq<char> {
    let b = encode_utf8(path);
    if b.len() <= max_len || max_len < 4 {
        path
    } else {
        "..."@ + decode_utf8(b.subrange(b.len() - (max_len - 3), b.len() as int))
    }
}

/// Whether cutting a text at `max_len` bytes, keeping its start, falls on a
/// character boundary (or does not cut at all).
pub open spec fn str_cut_ok(s: Seq<char>, max_len: nat) -> bool {
    let b = encode_utf8(s);
    b.len() <= max_len || (max_len < 4 && is_char_boundary(b, max_len as int)) || (max_len >= 4
        && is_char_boundary(b, max_len - 3))
}

/// A text shortened to `max_len` bytes: cut off, with `...` when the limit
/// leaves room for it.
pub open spec fn truncated_str(s: Seq<char>, max_len: nat) -> Seq<char> {
    let b = encode_utf8(s);
    if b.len() <= max_len {
        s
    } else if max_len < 4 {
        decode_utf8(b.subrange(0, max_len as int))
    } else {
        decode_utf8(b.subrange(0, max_len - 3)) + "..."@
    }
}

/// The encoding of a concatenation is the concatenation of the encodings.
proof fn lemma_encode_concat(a: Seq<char>, b: Seq<char>)
    ensures
        encode_utf8(a + b) == encode_utf8(a) + encode_utf8(b),
    decreases a.len(),
{
    if a.len() == 0 {
        assert(a + b =~= b);
        assert(encode_utf8(a) + encode_utf8(b) =~= encode_utf8(b));
    } else {
        assert((a + b).drop_first() =~= a.drop_first() + b);
        assert((a + b)[0] == a[0]);
        lemma_encode_concat(a.drop_first(), b);
        assert(encode_utf8(a + b) =~= encode_utf8(a) + encode_utf8(b));
    }
}

/// The three dots take three bytes.
proof fn lemma_dots_len()
    ensures
        byte_len("..."@) == 3,
{
    reveal_strlit("...");
    let d = "..."@;
    assert(d.len() == 3 && d[0] == '.' && d[1] == '.' && d[2] == '.');
    let d1 = d.drop_first();
    let d2 = d1.drop_first();
    let d3 = d2.drop_first();
    assert(d3 =~= Seq::<char>::empty());
    assert(('.' as u32) == 46);
    assert(vstd::utf8::encode_scalar('.' as u32).len() == 1);
    assert(encode_utf8(d3).len() == 0);
    assert(d2[0] == '.');
    assert(encode_utf8(d2).len() == 1);
    assert(d1[0] == '.');
    assert(encode_utf8(d1).len() == 2);
}

/// Decoding bytes cut at a character boundary and encoding them again gives
/// back those bytes.
proof fn lemma_cut_round_trip(s: Seq<char>, k: int)
    requires
        0 <= k <= encode_utf8(s).len(),
        is_char_boundary(encode_utf8(s), k),
    ensures
        encode_utf8(decode_utf8(encode_utf8(s).subrange(0, k))) == encode_utf8(s).subrange(0, k),
        encode_utf8(decode_utf8(encode_utf8(s).subrange(k, encode_utf8(s).len() as int)))
            == encode_utf8(s).subrange(k, encode_utf8(s).len() as int),
{
    let b = encode_utf8(s);
    encode_utf8_valid_utf8(s);
    valid_utf8_split(b, k);
    decode_utf8_encode_utf8(b.subrange(0, k));
    decode_utf8_encode_utf8(b.subrange(k, b.len() as int));
}

/// A shortened text takes exactly `max_len` bytes: the first `max_len - 3` bytes
/// of the text and three dots, or, for a limit below four, just the first
/// `max_len` bytes; a text that fits is left whole.
pub proof fn lemma_truncated_str_len(s: Seq<char>, max_len: nat)
    requires
        str_cut_ok(s, max_len),
    ensures
        byte_len(s) <= max_len ==> truncated_str(s, max_len) == s,
        byte_len(s) > max_len ==> byte_len(truncated_str(s, max_len)) == max_len,
        byte_len(s) > max_len && max_len >= 4 ==> encode_utf8(truncated_str(s, max_len))
            == encode_utf8(s).subrange(0, max_len - 3) + encode_utf8("..."@),
        byte_len(s) > max_len && max_len < 4 ==> encode_utf8(truncated_str(s, max_len))
            == encode_utf8(s).subrange(0, max_len as int),
{
    let b = encode_utf8(s);
    if b.len() > max_len {
        if max_len < 4 {
            lemma_cut_round_trip(s, max_len as int);
        } else {
            lemma_cut_round_trip(s, max_len - 3);
            lemma_encode_concat(decode_utf8(b.subrange(0, max_len - 3)), "..."@);
            lemma_dots_len();
        }
    }
}

/// A shortened path takes exactly `max_len` bytes: three dots and the last
/// `max_len - 3` bytes of the path; a path that fits, or a limit below four,
/// leaves it whole.
pub proof fn lemma_truncated_path_len(path: Seq<char>, max_len: nat)
    requires
        path_cut_ok(path, max_len),
    ensures
        byte_len(path) <= max_len || max_len < 4 ==> truncated_path(path, max_len) == path,
        byte_len(path) > max_len && max_len >= 4 ==> byte_len(truncated_path(path, max_len))
            == max_len,
        byte_len(path) > max_len && max_len >= 4 ==> encode_utf8(truncated_path(path, max_len))
            == encode_utf8("..."@) + encode_utf8(path).subrange(
            byte_len(path) - (max_len - 3),
            byte_len(path) as int,
        ),
{
    let b = encode_utf8(path);
    if b.len() > max_len && max_len >= 4 {
        lemma_cut_round_trip(path, b.len() - (max_len - 3));
        let tail = decode_utf8(b.subrange(b.len() - (max_len - 3), b.len() as int));
        lemma_encode_concat("..."@, tail);
        lemma_dots_len();
    }
}

/// Shortens a path display to `max_len` bytes, keeping its end.
pub fn truncate_path(path: &str, max_len: usize) -> (r: String)
    requires
        path_cut_ok(path@, max_len as nat),
    ensures
        r@ == truncated_path(path@, max_len as nat),
{
    utf8_len(path);
    if path.len() <= max_len || max_len < 4 {
        return owned(path);
    }
    let cut = path.len() - (max_len - 3);
    let (_, tail) = path.split_at(cut);
    proof {
        assert(tail.spec_bytes() == encode_utf8(tail@));
        assert(decode_utf8(encode_utf8(tail@)) == tail@);
    }
    let mut r = owned("...");
    push_str(&mut r, tail);
    r
}

/// Shortens a text to `max_len` bytes, keeping its start.
pub fn truncate_str(s: &str, max_len: usize) -> (r: String)
    requires
        str_cut_ok(s@, max_len as nat),
    ensures
        r@ == truncated_str(s@, max_len as nat),
{
    utf8_len(s);
    if s.len() <= max_len {
        owned(s)
    } else if max_len < 4 {
        let (head, _) = s.split_at(max_len);
        proof {
            assert(head.spec_bytes() == encode_utf8(head@));
            assert(decode_utf8(encode_utf8(head@)) == head@);
        }
        owned(head)
    } else {
        let (head, _) = s.split_at(max_len - 3);
        proof {
            assert(head.spec_bytes() == encode_utf8(head@));
            assert(decode_utf8(encode_utf8(head@)) == head@);
        }
        let mut r = owned(head);
        push_str(&mut r, "...");
        r
    }
}

/// Whether a text can be cut at `max_len` bytes; see `str_cut_ok`.
pub fn str_cut_fits(s: &str, max_len: usize) -> (r: bool)
    ensures
        r == str_cut_ok(s@, max_len as nat),
{
    utf8_len(s);
    s.len() <= max_len || (max_len < 4 && s.is_char_boundary(max_len)) || (max_len >= 4
        && s.is_char_boundary(max_len - 3))
}

/// Whether a path can be cut at `max_len` bytes; see `path_cut_ok`.
pub fn path_cut_fits(path: &str, max_len: usize) -> (r: bool)
    ensures
        r == path_cut_ok(path@, max_len as nat),
{
    utf8_len(path);
    path.len() <= max_len || max_len < 4 || path.is_char_boundary(path.len() - (max_len - 3))
}

/// A colour of the phosphor palette.
#[derive(Clone, Copy, Debug, PartialEq, Eq, Structural)]
pub enum Tone {
    Green,
    DimGreen,
    BrightGreen,
    Cyan,
    Yellow,
    Bg,
    BgHighlight,
    BgSelected,
    StatusBg,
    Alert,
}

/// The red, green and blue parts of a palette colour.
pub open spec fn tone_rgb(t: Tone) -> (u8, u8, u8) {
    match t {
        Tone::Green => (0, 255, 200),
        Tone::DimGreen => (0, 128, 100),
        Tone::BrightGreen => (160, 255, 230),
        Tone::Cyan => (0, 220, 200),
        Tone::Yellow => (200, 200, 0),
        Tone::Bg => (0, 8, 0),
        Tone::BgHighlight => (0, 30, 5),
        Tone::BgSelected => (0, 50, 10),
        Tone::StatusBg => (0, 20, 0),
        Tone::Alert => (255, 80, 80),
    }
}

impl Tone {
    /// The colour's red, green and blue parts.
    pub fn rgb(self) -> (r: (u8, u8, u8))
        ensures
            r == tone_rgb(self),
    {
        match self {
            Tone::Green => (0, 255, 200),
            Tone::DimGreen => (0, 128, 100),
            Tone::BrightGreen => (160, 255, 230),
            Tone::Cyan => (0, 220, 200),
            Tone::Yellow => (200, 200, 0),
            Tone::Bg => (0, 8, 0),
            Tone::BgHighlight => (0, 30, 5),
            Tone::BgSelected => (0, 50, 10),
            Tone::StatusBg => (0, 20, 0),
            Tone::Alert => (255, 80, 80),
        }
    }
}

/// A piece of text with a foreground, a background and boldness; a missing colour
/// leaves the surrounding one.
#[derive(Debug)]
pub struct Span {
    pub text: String,
    pub fg: Option<Tone>,
    pub bg: Option<Tone>,
    pub bold: bool,
}

/// What a span shows: its text, colours and boldness.
pub type SpanView = (Seq<char>, Option<Tone>, Option<Tone>, bool);

/// The views of a line of spans.
pub open spec fn spans_view(spans: Seq<Span>) -> Seq<SpanView> {
    spans.map_values(|sp: Span| (sp.text@, sp.fg, sp.bg, sp.bold))
}

fn span(text: String, fg: Option<Tone>, bg: Option<Tone>, bold: bool) -> (r: Span)
    ensures
        r.text@ == text@,
        r.fg == fg,
        r.bg == bg,
        r.bold == bold,
{
    Span { text, fg, bg, bold }
}

/// The typing prompt of an input mode.
pub open spec fn prompt_text(mode: InputMode) -> Seq<char> {
    match mode {
        InputMode::Search => " /search: "@,
        InputMode::GoPath => " go to: "@,
        InputMode::Rename => " rename: "@,
        InputMode::NewFile => " new file: "@,
        InputMode::NewDir => " new directory: "@,
        _ => Seq::empty(),
    }
}

/// The key help shown when there is no status message.
pub open spec fn help_text() -> Seq<char> {
    " j/k:nav Enter:open Bksp:up c:copy m:move d:del r:rename n/N:new Space:select"@
}

/// The bottom line: the status message or the key help in normal mode, the
/// prompt, the typed text and a block cursor while typing, the question in red
/// while a deletion waits for confirmation.
pub open spec fn status_line_view(a: App) -> Seq<SpanView> {
    match a.input_mode {
        InputMode::Normal => if a.status_msg@.len() == 0 {
            seq![(help_text(), Some(Tone::DimGreen), Some(Tone::Bg), false)]
        } else {
            seq![(" "@ + a.status_msg@, Some(Tone::Yellow), Some(Tone::Bg), true)]
        },
        InputMode::ConfirmDelete => seq![
            (" "@ + a.status_msg@, Some(Tone::Alert), Some(Tone::Bg), true),
        ],
        _ => seq![
            (prompt_text(a.input_mode), Some(Tone::Green), Some(Tone::Bg), true),
            (a.input_buffer@, Some(Tone::BrightGreen), Some(Tone::Bg), false),
            ("\u{2588}"@, Some(Tone::Green), Some(Tone::Bg), false),
        ],
    }
}

/// The bottom line in each mode: in normal mode the status message (or the key
/// help when there is none); while a deletion waits, the question in the alert
/// colour; while typing, the mode's own prompt (`/search:`, `go to:`, `rename:`,
/// `new file:`, `new directory:`) followed by the typed text.
pub proof fn lemma_status_line(a: App)
    ensures
        ({
            let l = status_line_view(a);
            &&& a.input_mode == InputMode::Normal && a.status_msg@.len() > 0 ==> l.len() == 1
                && l[0].0 == " "@ + a.status_msg@
            &&& a.input_mode == InputMode::Normal && a.status_msg@.len() == 0 ==> l.len() == 1
                && l[0].0 == help_text()
            &&& a.input_mode == InputMode::ConfirmDelete ==> l.len() == 1 && l[0].0 == " "@
                + a.status_msg@ && l[0].1 == Some(Tone::Alert)
            &&& a.input_mode == InputMode::Search ==> l.len() == 3 && l[0].0 == " /search: "@
                && l[1].0 == a.input_buffer@
            &&& a.input_mode == InputMode::GoPath ==> l.len() == 3 && l[0].0 == " go to: "@
                && l[1].0 == a.input_buffer@
            &&& a.input_mode == InputMode::Rename ==> l.len() == 3 && l[0].0 == " rename: "@
                && l[1].0 == a.input_buffer@
            &&& a.input_mode == InputMode::NewFile ==> l.len() == 3 && l[0].0 == " new file: "@
                && l[1].0 == a.input_buffer@
            &&& a.input_mode == InputMode::NewDir ==> l.len() == 3 && l[0].0 == " new directory: "@
                && l[1].0 == a.input_buffer@
        }),
{
}

/// The info bar speaks of the focused pane: its path and the number of its
/// entries on the first line, what is known of its entry under the cursor on the
/// second.
pub proof fn lemma_info_lines(a: App)
    ensures
        ({
            let p = if a.active == ActivePane::Left { a.left } else { a.right };
            let (first, second) = info_lines_view(a);
            &&& first[0].0 == " "@ + p.path@ + " "@
            &&& first[1].0 == "| "@ + decimal(p.entries@.len()) + " files"@ + selection_text(p)
                + progress_text(a.progress) + filter_text(p)
            &&& second[0].0 == " "@ + match current_of(p) {
                Some(e) => file_info_text(e),
                None => Seq::<char>::empty(),
            }
        }),
{
}

/// The spans of the bottom line; see `status_line_view`.
pub fn status_line(app: &App) -> (r: Vec<Span>)
    ensures
        spans_view(r@) == status_line_view(*app),
{
    let mut r: Vec<Span> = Vec::new();
    match app.input_mode {
        InputMode::Normal => {
            if app.status_msg.as_str().is_empty() {
                r.push(span(owned(" j/k:nav Enter:open Bksp:up c:copy m:move d:del r:rename n/N:new Space:select"), Some(Tone::DimGreen), Some(Tone::Bg), false));
            } else {
                let mut t = owned(" ");
                push_str(&mut t, app.status_msg.as_str());
                r.push(span(t, Some(Tone::Yellow), Some(Tone::Bg), true));
            }
        },
        InputMode::ConfirmDelete => {
            let mut t = owned(" ");
            push_str(&mut t, app.status_msg.as_str());
            r.push(span(t, Some(Tone::Alert), Some(Tone::Bg), true));
        },
        _ => {
            let prompt = match app.input_mode {
                InputMode::Search => " /search: ",
                InputMode::GoPath => " go to: ",
                InputMode::Rename => " rename: ",
                InputMode::NewFile => " new file: ",
                _ => " new directory: ",
            };
            r.push(span(owned(prompt), Some(Tone::Green), Some(Tone::Bg), true));
            r.push(span(app.input_buffer.clone(), Some(Tone::BrightGreen), Some(Tone::Bg), false));
            r.push(span(owned("\u{2588}"), Some(Tone::Green), Some(Tone::Bg), false));
        },
    }
    proof {
        assert(spans_view(r@) =~= status_line_view(*app));
    }
    r
}

/// The title bar: the program's name, what it is, and the main keys.
pub open spec fn title_line_view() -> Seq<SpanView> {
    seq![
        (" PHOSPHOR-FM "@, Some(Tone::Bg), Some(Tone::Green), true),
        (" dual-pane file manager "@, Some(Tone::DimGreen), Some(Tone::Bg), false),
        (" q:quit Tab:switch /:search s:sort .:hidden p:preview "@, Some(Tone::DimGreen), Some(Tone::Bg), false),
    ]
}

/// The spans of the title bar; see `title_line_view`.
pub fn title_line() -> (r: Vec<Span>)
    ensures
        spans_view(r@) == title_line_view(),
{
    let mut r: Vec<Span> = Vec::new();
    r.push(span(owned(" PHOSPHOR-FM "), Some(Tone::Bg), Some(Tone::Green), true));
    r.push(span(owned(" dual-pane file manager "), Some(Tone::DimGreen), Some(Tone::Bg), false));
    r.push(span(owned(" q:quit Tab:switch /:search s:sort .:hidden p:preview "), Some(Tone::DimGreen), Some(Tone::Bg), false));
    proof {
        assert(spans_view(r@) =~= title_line_view());
    }
    r
}

/// What the info bar says about an entry: permissions, owner, size, time, name.
pub open spec fn file_info_text(e: FileEntry) -> Seq<char> {
    permission_text(e) + " uid:"@ + decimal(e.owner_uid as nat) + " "@ + size_column_text(e) + " "@
        + modified_text(e.modified) + " "@ + e.name@
}

/// The first info line's counts: files, then the selection, the progress and the
/// filter where there are any.
pub open spec fn counts_text(a: App) -> Seq<char> {
    let p = active_of(a);
    "| "@ + decimal(p.entries@.len()) + " files"@ + selection_text(p) + progress_text(a.progress)
        + filter_text(p)
}

/// The two info lines: the focused pane's path with its counts, and what is known
/// of the entry under the cursor.
pub open spec fn info_lines_view(a: App) -> (Seq<SpanView>, Seq<SpanView>) {
    let p = active_of(a);
    (
        seq![
            (" "@ + p.path@ + " "@, Some(Tone::Green), Some(Tone::StatusBg), true),
            (counts_text(a), Some(Tone::DimGreen), Some(Tone::StatusBg), false),
        ],
        seq![
            (" "@ + match current_of(p) {
                Some(e) => file_info_text(e),
                None => Seq::<char>::empty(),
            }, Some(Tone::DimGreen), Some(Tone::StatusBg), false),
        ],
    )
}

/// The selection part of the counts.
pub open spec fn selection_text(p: Pane) -> Seq<char> {
    if p.selected@.len() > 0 {
        " | "@ + decimal(p.selected@.len()) + " selected"@
    } else {
        Seq::empty()
    }
}

/// The progress part of the counts.
pub open spec fn progress_text(progress: Option<(usize, usize)>) -> Seq<char> {
    match progress {
        Some(pr) => " | Progress: "@ + decimal(pr.0 as nat) + "/"@ + decimal(pr.1 as nat),
        None => Seq::empty(),
    }
}

/// The filter part of the counts.
pub open spec fn filter_text(p: Pane) -> Seq<char> {
    if p.filter@.len() > 0 {
        " | filter: '"@ + p.filter@ + "'"@
    } else {
        Seq::empty()
    }
}

fn push_selection(s: &mut String, p: &Pane)
    ensures
        final(s)@ == old(s)@ + selection_text(*p),
{
    let n_sel = p.selected_count();
    if n_sel > 0 {
        push_str(s, " | ");
        push_decimal(s, n_sel as u128);
        push_str(s, " selected");
    }
    proof {
        assert(final(s)@ =~= old(s)@ + selection_text(*p));
    }
}

fn push_progress(s: &mut String, progress: Option<(usize, usize)>)
    ensures
        final(s)@ == old(s)@ + progress_text(progress),
{
    match progress {
        Some(pr) => {
            push_str(s, " | Progress: ");
            push_decimal(s, pr.0 as u128);
            push_str(s, "/");
            push_decimal(s, pr.1 as u128);
        },
        None => {},
    }
    proof {
        assert(final(s)@ =~= old(s)@ + progress_text(progress));
    }
}

fn push_filter(s: &mut String, p: &Pane)
    ensures
        final(s)@ == old(s)@ + filter_text(*p),
{
    if !p.filter.as_str().is_empty() {
        push_str(s, " | filter: '");
        push_str(s, p.filter.as_str());
        push_str(s, "'");
    }
    proof {
        assert(final(s)@ =~= old(s)@ + filter_text(*p));
    }
}

/// The counts of the first info line; see `counts_text`.
fn counts_line(app: &App) -> (r: String)
    ensures
        r@ == counts_text(*app),
{
    let pane = app.active_pane();
    let mut counts = owned("| ");
    push_decimal(&mut counts, pane.file_count() as u128);
    push_str(&mut counts, " files");
    push_selection(&mut counts, pane);
    push_progress(&mut counts, app.progress);
    push_filter(&mut counts, pane);
    proof {
        assert(counts@ =~= counts_text(*app));
    }
    counts
}

/// What the info bar says about an entry; see `file_info_text`.
fn file_info(e: &FileEntry) -> (r: String)
    ensures
        r@ == file_info_text(*e),
{
    let mut info = e.format_permissions();
    push_str(&mut info, " uid:");
    push_decimal(&mut info, e.owner_uid as u128);
    push_str(&mut info, " ");
    let size = e.format_size();
    push_str(&mut info, size.as_str());
    push_str(&mut info, " ");
    let modified = e.format_modified();
    push_str(&mut info, modified.as_str());
    push_str(&mut info, " ");
    push_str(&mut info, e.name.as_str());
    proof {
        assert(info@ =~= file_info_text(*e));
    }
    info
}

/// The spans of the two info lines; see `info_lines_view`.
pub fn info_lines(app: &App) -> (r: (Vec<Span>, Vec<Span>))
    ensures
        spans_view(r.0@) == info_lines_view(*app).0,
        spans_view(r.1@) == info_lines_view(*app).1,
{
    let pane = app.active_pane();
    let mut head = owned(" ");
    push_str(&mut head, pane.path.as_str());
    push_str(&mut head, " ");
    let counts = counts_line(app);
    let mut info = owned(" ");
    match pane.current_entry() {
        Some(e) => {
            let t = file_info(e);
            push_str(&mut info, t.as_str());
        },
        None => {},
    }
    proof {
        assert(info@ =~= " "@ + match current_of(*pane) {
            Some(e) => file_info_text(e),
            None => Seq::<char>::empty(),
        });
    }
    let mut line1: Vec<Span> = Vec::new();
    line1.push(span(head, Some(Tone::Green), Some(Tone::StatusBg), true));
    line1.push(span(counts, Some(Tone::DimGreen), Some(Tone::StatusBg), false));
    let mut line2: Vec<Span> = Vec::new();
    line2.push(span(info, Some(Tone::DimGreen), Some(Tone::StatusBg), false));
    proof {
        assert(spans_view(line1@) =~= info_lines_view(*app).0);
        assert(spans_view(line2@) =~= info_lines_view(*app).1);
    }
    (line1, line2)
}

/// The colour of a name: yellow for a symbolic link, bright for a directory,
/// cyan for an executable, dim otherwise.
pub open spec fn name_tone(e: FileEntry) -> Tone {
    if e.is_symlink {
        Tone::Yellow
    } else if e.is_dir {
        Tone::BrightGreen
    } else if e.is_executable {
        Tone::Cyan
    } else {
        Tone::DimGreen
    }
}

/// The background of a row: selected rows stand out most, then the cursor row.
pub open spec fn row_bg(is_cursor: bool, is_selected: bool) -> Tone {
    if is_selected {
        Tone::BgSelected
    } else if is_cursor {
        Tone::BgHighlight
    } else {
        Tone::Bg
    }
}

/// A text right-aligned in `width` characters.
pub open spec fn right_aligned(t: Seq<char>, width: nat) -> Seq<char> {
    if t.len() < width {
        blanks((width - t.len()) as nat) + t
    } else {
        t
    }
}

/// The bytes a row has for the name: the inner width less the other columns.
pub open spec fn name_room(inner_width: nat) -> nat {
    if inner_width > 30 {
        (inner_width - 30) as nat
    } else {
        0
    }
}

/// The blanks after a name: what is left of the room once the name's bytes are
/// counted (a shortened name fills the room).
pub open spec fn name_padding(name: Seq<char>, room: nat) -> nat {
    if byte_len(name) <= room {
        (room - byte_len(name)) as nat
    } else {
        0
    }
}

/// The row for the visible entry at display position `k`: selection marker,
/// type marker, name, size and time, on the row's background.
pub open spec fn entry_row_view(p: Pane, k: nat, inner_width: nat, active: bool) -> Seq<SpanView> {
    let pos = visible_of(p)[k as int];
    let e = p.entries@[pos as int];
    let is_cursor = k == p.cursor && active;
    let is_selected = p.selected@.contains(pos);
    let bg = row_bg(is_cursor, is_selected);
    let fg = name_tone(e);
    let room = name_room(inner_width);
    seq![
        (if is_selected { "\u{25cf} "@ } else { "  "@ }, Some(Tone::Green), Some(bg), false),
        (indicator_text(e), Some(fg), Some(bg), false),
        (truncated_str(e.name@, room) + blanks(name_padding(e.name@, room)), Some(fg), Some(bg), is_cursor),
        (" "@ + right_aligned(size_column_text(e), 8), Some(Tone::DimGreen), Some(bg), false),
        (" "@ + modified_text(e.modified), Some(Tone::DimGreen), Some(bg), false),
    ]
}

/// How many entry rows a pane shows in `height` rows from its scroll position.
pub open spec fn shown_rows(p: Pane, height: nat) -> nat {
    let v = visible_of(p).len();
    if p.scroll_offset >= v {
        0
    } else if v - p.scroll_offset < height {
        (v - p.scroll_offset) as nat
    } else {
        height
    }
}

/// A blank row on the plain background.
pub open spec fn blank_row_view(inner_width: nat) -> Seq<SpanView> {
    seq![(blanks(inner_width), None, Some(Tone::Bg), false)]
}

/// The rows of a pane: its entries from the scroll position on, then blank rows
/// up to `height`.
pub open spec fn pane_rows_view(p: Pane, inner_width: nat, height: nat, active: bool) -> Seq<
    Seq<SpanView>,
> {
    let n = shown_rows(p, height);
    Seq::new(n, |j: int| entry_row_view(p, (p.scroll_offset + j) as nat, inner_width, active))
        + Seq::new((height - n) as nat, |j: int| blank_row_view(inner_width))
}

/// A file pane has `height` rows. Row `j` below the scroll position, while there
/// are visible entries left, shows the visible entry at display position
/// `k = scroll_offset + j`, that is the entry at listing position
/// `visible_of(p)[k]`: it starts with the selection marker exactly when that
/// listing position is selected; its background is the selection colour for a
/// selected entry, else the highlight for the cursor row of the focused pane,
/// else the plain one; only the cursor row of the focused pane has a bold name;
/// and its type marker and date are those of that entry. The rows after the
/// entries are blank.
pub proof fn lemma_pane_rows(p: Pane, inner_width: nat, height: nat, active: bool)
    ensures
        pane_rows_view(p, inner_width, height, active).len() == height,
        forall|j: int|
            0 <= j < shown_rows(p, height) ==> {
                let row = #[trigger] pane_rows_view(p, inner_width, height, active)[j];
                let k = p.scroll_offset + j;
                let pos = visible_of(p)[k];
                let e = p.entries@[pos as int];
                let sel = p.selected@.contains(pos);
                let here = k == p.cursor && active;
                &&& k < visible_of(p).len()
                &&& row.len() == 5
                &&& row[0].0 == if sel {
                    "\u{25cf} "@
                } else {
                    "  "@
                }
                &&& forall|c: int|
                    0 <= c < 5 ==> (#[trigger] row[c]).2 == Some(
                        if sel {
                            Tone::BgSelected
                        } else if here {
                            Tone::BgHighlight
                        } else {
                            Tone::Bg
                        },
                    )
                &&& row[2].3 == here
                &&& row[0].3 == false && row[1].3 == false && row[3].3 == false && row[4].3 == false
                &&& row[1].0 == indicator_text(e)
                &&& row[4].0 == " "@ + modified_text(e.modified)
            },
        forall|j: int|
            shown_rows(p, height) <= j < height ==> #[trigger] pane_rows_view(
                p,
                inner_width,
                height,
                active,
            )[j] == seq![(blanks(inner_width), None::<Tone>, Some(Tone::Bg), false)],
{
    let n = shown_rows(p, height);
    assert forall|j: int| 0 <= j < n implies #[trigger] pane_rows_view(
        p,
        inner_width,
        height,
        active,
    )[j] == entry_row_view(p, (p.scroll_offset + j) as nat, inner_width, active) by {}
}

/// The bytes the title has for the path.
pub open spec fn title_room(area_width: nat) -> nat {
    if area_width > 40 {
        (area_width - 40) as nat
    } else {
        0
    }
}

/// A pane's title: its label, its path shortened to fit, how many entries it
/// has and its sort mode.
pub open spec fn pane_title(p: Pane, area_width: nat, label: Seq<char>) -> Seq<char> {
    " "@ + label + " \u{2502} "@ + truncated_path(p.path@, title_room(area_width)) + " \u{2502} "@
        + decimal(p.entries@.len()) + " files \u{2502} sort:"@ + mode_label(p.sort_mode) + " "@
}

/// The rows of a pane can be drawn: every name and the path can be cut where the
/// drawing cuts them.
pub open spec fn pane_drawable(p: Pane, area_width: nat, inner_width: nat, height: nat) -> bool {
    &&& path_cut_ok(p.path@, title_room(area_width))
    &&& forall|j: int|
        0 <= j < shown_rows(p, height) ==> {
            let e = #[trigger] p.entries@[visible_of(p)[p.scroll_offset + j] as int];
            str_cut_ok(e.name@, name_room(inner_width))
        }
}

/// Whether a file pane can be laid out as it stands: see `pane_drawable` and
/// `file_pane_view`.
pub fn pane_cuts_fit(pane: &Pane, area_width: u16, inner_width: u16, inner_height: u16) -> (r: bool)
    ensures
        r == pane_drawable(
            Pane {
                scroll_offset: scroll_after(pane.cursor, pane.scroll_offset, inner_height as usize),
                ..*pane
            },
            area_width as nat,
            inner_width as nat,
            inner_height as nat,
        ),
{
    let ghost p = Pane {
        scroll_offset: scroll_after(pane.cursor, pane.scroll_offset, inner_height as usize),
        ..*pane
    };
    let scroll = scroll_for(pane.cursor, pane.scroll_offset, inner_height as usize);
    let title_cut: usize = if area_width > 40 {
        (area_width - 40) as usize
    } else {
        0
    };
    if !path_cut_fits(pane.path.as_str(), title_cut) {
        return false;
    }
    let room: usize = if inner_width > 30 {
        (inner_width - 30) as usize
    } else {
        0
    };
    let height = inner_height as usize;
    let filtered = pane.filtered_entries();
    let mut k = scroll;
    let mut j: usize = 0;
    while k < filtered.len() && j < height
        invariant
            filtered.len() == visible_of(*pane).len(),
            forall|m: int|
                0 <= m < filtered.len() ==> (#[trigger] filtered@[m]).0 == visible_of(*pane)[m]
                    && *filtered@[m].1 == pane.entries@[visible_of(*pane)[m] as int],
            p == (Pane {
                scroll_offset: scroll_after(pane.cursor, pane.scroll_offset, inner_height as usize),
                ..*pane
            }),
            visible_of(p) == visible_of(*pane),
            p.entries == pane.entries,
            p.scroll_offset == scroll,
            k == scroll + j,
            j <= height,
            height == inner_height as nat,
            room == name_room(inner_width as nat),
            j <= shown_rows(p, height as nat),
            forall|i: int|
                0 <= i < j ==> str_cut_ok(
                    (#[trigger] p.entries@[visible_of(p)[p.scroll_offset + i] as int]).name@,
                    room as nat,
                ),
        decreases height - j,
    {
        if !str_cut_fits(filtered[k].1.name.as_str(), room) {
            proof {
                let e = p.entries@[visible_of(p)[p.scroll_offset + j] as int];
                assert(e == *filtered@[k as int].1);
                assert(j < shown_rows(p, height as nat));
                assert(!str_cut_ok(e.name@, name_room(inner_width as nat)));
                assert(!pane_drawable(p, area_width as nat, inner_width as nat, inner_height as nat));
            }
            return false;
        }
        k = k + 1;
        j = j + 1;
    }
    proof {
        assert(j == shown_rows(p, height as nat));
    }
    true
}

/// What a file pane shows: the title, the border colour and the rows.
pub struct PaneView {
    pub title: String,
    pub border: Tone,
    pub rows: Vec<Vec<Span>>,
}

/// The row for the visible entry at display position `k`.
fn entry_row(p: &Pane, filtered: &Vec<(usize, &FileEntry)>, k: usize, inner_width: u16, active: bool) -> (r: Vec<Span>)
    requires
        k < visible_of(*p).len(),
        filtered.len() == visible_of(*p).len(),
        forall|m: int|
            0 <= m < filtered.len() ==> (#[trigger] filtered@[m]).0 == visible_of(*p)[m] && *filtered@[m].1
                == p.entries@[visible_of(*p)[m] as int],
        str_cut_ok(p.entries@[visible_of(*p)[k as int] as int].name@, name_room(inner_width as nat)),
    ensures
        spans_view(r@) == entry_row_view(*p, k as nat, inner_width as nat, active),
{
    let pos = filtered[k].0;
    let e = filtered[k].1;
    let is_cursor = k == p.cursor && active;
    let is_selected = p.selected.contains(&pos);
    let bg = if is_selected {
        Tone::BgSelected
    } else if is_cursor {
        Tone::BgHighlight
    } else {
        Tone::Bg
    };
    let fg = if e.is_symlink {
        Tone::Yellow
    } else if e.is_dir {
        Tone::BrightGreen
    } else if e.is_executable {
        Tone::Cyan
    } else {
        Tone::DimGreen
    };
    let room: usize = if inner_width > 30 {
        (inner_width - 30) as usize
    } else {
        0
    };
    let marker = if is_selected {
        "\u{25cf} "
    } else {
        "  "
    };
    let mut name = truncate_str(e.name.as_str(), room);
    let name_bytes = utf8_len(e.name.as_str());
    let pad: usize = if name_bytes <= room {
        room - name_bytes
    } else {
        0
    };
    let ghost before_pad = name@;
    let mut i: usize = 0;
    while i < pad
        invariant
            i <= pad,
            name@ == before_pad + blanks(i as nat),
        decreases pad - i,
    {
        push_char(&mut name, ' ');
        i = i + 1;
        proof {
            assert(name@ =~= before_pad + blanks(i as nat));
        }
    }
    let size_text = e.format_size();
    let size_len = chars_of(size_text.as_str()).len();
    let mut size_col = owned(" ");
    let ghost before_size = size_col@;
    if size_len < 8 {
        let mut j: usize = 0;
        while j < 8 - size_len
            invariant
                size_len < 8,
                j <= 8 - size_len,
                size_col@ == before_size + blanks(j as nat),
            decreases 8 - size_len - j,
        {
            push_char(&mut size_col, ' ');
            j = j + 1;
            proof {
                assert(size_col@ =~= before_size + blanks(j as nat));
            }
        }
    }
    push_str(&mut size_col, size_text.as_str());
    proof {
        assert(size_col@ =~= " "@ + right_aligned(size_column_text(*e), 8));
    }
    let mut date_col = owned(" ");
    let modified = e.format_modified();
    push_str(&mut date_col, modified.as_str());
    let mut r: Vec<Span> = Vec::new();
    r.push(span(owned(marker), Some(Tone::Green), Some(bg), false));
    r.push(span(owned(e.type_indicator()), Some(fg), Some(bg), false));
    r.push(span(name, Some(fg), Some(bg), is_cursor));
    r.push(span(size_col, Some(Tone::DimGreen), Some(bg), false));
    r.push(span(date_col, Some(Tone::DimGreen), Some(bg), false));
    proof {
        assert(spans_view(r@) =~= entry_row_view(*p, k as nat, inner_width as nat, active));
    }
    r
}

/// A blank row.
fn blank_row(inner_width: u16) -> (r: Vec<Span>)
    ensures
        spans_view(r@) == blank_row_view(inner_width as nat),
{
    let mut t = String::new();
    let mut i: u16 = 0;
    while i < inner_width
        invariant
            i <= inner_width,
            t@ == blanks(i as nat),
        decreases inner_width - i,
    {
        push_char(&mut t, ' ');
        i = i + 1;
        proof {
            assert(t@ =~= blanks(i as nat));
        }
    }
    let mut r: Vec<Span> = Vec::new();
    r.push(span(t, None, Some(Tone::Bg), false));
    proof {
        assert(spans_view(r@) =~= blank_row_view(inner_width as nat));
    }
    r
}

/// Lays out a file pane for drawing: scrolls the pane so that the cursor row is
/// within `inner_height` rows, then gives the title (for a pane `area_width`
/// wide), the border colour (bright when the pane has the focus) and the rows.
pub fn file_pane_view(
    pane: &mut Pane,
    area_width: u16,
    inner_width: u16,
    inner_height: u16,
    active: bool,
    label: &str,
) -> (r: PaneView)
    requires
        pane_drawable(
            Pane {
                scroll_offset: scroll_after(
                    old(pane).cursor,
                    old(pane).scroll_offset,
                    inner_height as usize,
                ),
                ..*old(pane)
            },
            area_width as nat,
            inner_width as nat,
            inner_height as nat,
        ),
    ensures
        *final(pane) == (Pane {
            scroll_offset: scroll_after(old(pane).cursor, old(pane).scroll_offset, inner_height as usize),
            ..*old(pane)
        }),
        r.title@ == pane_title(*final(pane), area_width as nat, label@),
        r.border == if active {
            Tone::Green
        } else {
            Tone::DimGreen
        },
        r.rows@.map_values(|row: Vec<Span>| spans_view(row@)) == pane_rows_view(
            *final(pane),
            inner_width as nat,
            inner_height as nat,
            active,
        ),
{
    pane.ensure_visible(inner_height as usize);
    let room: usize = if area_width > 40 {
        (area_width - 40) as usize
    } else {
        0
    };
    let mut title = owned(" ");
    push_str(&mut title, label);
    push_str(&mut title, " \u{2502} ");
    let shown_path = truncate_path(pane.path.as_str(), room);
    push_str(&mut title, shown_path.as_str());
    push_str(&mut title, " \u{2502} ");
    push_decimal(&mut title, pane.file_count() as u128);
    push_str(&mut title, " files \u{2502} sort:");
    push_str(&mut title, pane.sort_mode.label());
    push_str(&mut title, " ");
    let border = if active {
        Tone::Green
    } else {
        Tone::DimGreen
    };
    let height = inner_height as usize;
    let p: &Pane = pane;
    let filtered = p.filtered_entries();
    let ghost n = shown_rows(*p, height as nat);
    let mut rows: Vec<Vec<Span>> = Vec::new();
    let mut k = p.scroll_offset;
    while k < filtered.len() && rows.len() < height
        invariant
            filtered.len() == visible_of(*p).len(),
            forall|m: int|
                0 <= m < filtered.len() ==> (#[trigger] filtered@[m]).0 == visible_of(*p)[m]
                    && *filtered@[m].1 == p.entries@[visible_of(*p)[m] as int],
            pane_drawable(*p, area_width as nat, inner_width as nat, inner_height as nat),
            height == inner_height as usize,
            p.scroll_offset <= k,
            rows.len() == k - p.scroll_offset,
            rows.len() <= n,
            n == shown_rows(*p, height as nat),
            rows@.map_values(|row: Vec<Span>| spans_view(row@)) == Seq::new(
                rows.len() as nat,
                |j: int| entry_row_view(*p, (p.scroll_offset + j) as nat, inner_width as nat, active),
            ),
        decreases filtered.len() - k,
    {
        proof {
            let j = (k - p.scroll_offset) as int;
            assert(p.entries@[visible_of(*p)[p.scroll_offset + j] as int] == p.entries@[visible_of(*p)[k as int] as int]);
        }
        let row = entry_row(p, &filtered, k, inner_width, active);
        let ghost before = rows@;
        let ghost rv = spans_view(row@);
        rows.push(row);
        proof {
            assert(rows@.map_values(|row: Vec<Span>| spans_view(row@)) =~= before.map_values(
                |row: Vec<Span>| spans_view(row@),
            ).push(rv));
            assert(Seq::new(
                rows.len() as nat,
                |j: int| entry_row_view(*p, (p.scroll_offset + j) as nat, inner_width as nat, active),
            ) =~= Seq::new(
                before.len() as nat,
                |j: int| entry_row_view(*p, (p.scroll_offset + j) as nat, inner_width as nat, active),
            ).push(rv));
        }
        k = k + 1;
    }
    let ghost entry_rows = rows@.map_values(|row: Vec<Span>| spans_view(row@));
    proof {
        assert(rows.len() == n);
    }
    while rows.len() < height
        invariant
            n <= rows.len() <= height,
            rows@.map_values(|row: Vec<Span>| spans_view(row@)) == entry_rows + Seq::new(
                (rows.len() - n) as nat,
                |j: int| blank_row_view(inner_width as nat),
            ),
        decreases height - rows.len(),
    {
        let row = blank_row(inner_width);
        let ghost before = rows@;
        let ghost rv = spans_view(row@);
        rows.push(row);
        proof {
            assert(rows@.map_values(|row: Vec<Span>| spans_view(row@)) =~= before.map_values(
                |row: Vec<Span>| spans_view(row@),
            ).push(rv));
            assert(rows@.map_values(|row: Vec<Span>| spans_view(row@)) =~= entry_rows + Seq::new(
                (rows.len() - n) as nat,
                |j: int| blank_row_view(inner_width as nat),
            ));
        }
    }
    proof {
        assert(rows@.map_values(|row: Vec<Span>| spans_view(row@)) =~= pane_rows_view(
            *p,
            inner_width as nat,
            inner_height as nat,
            active,
        ));
        assert(title@ =~= pane_title(*p, area_width as nat, label@));
    }
    PaneView { title, border, rows }
}

/// The path the preview panel shows: that of the left pane's current entry, if
/// there is one.
pub fn preview_target(app: &App) -> (r: Option<String>)
    ensures
        match current_of(app.left) {
            Some(e) => r is Some && r->0@ == e.path@,
            None => r is None,
        },
{
    match app.left.current_entry() {
        Some(e) => Some(e.path.clone()),
        None => None,
    }
}

/// What the preview panel shows when there is nothing to preview.
pub fn no_preview_lines() -> (r: Vec<String>)
    ensures
        texts(r@) == seq!["No file selected"@],
{
    let mut lines: Vec<String> = Vec::new();
    lines.push(owned("No file selected"));
    proof {
        assert(texts(lines@) =~= seq!["No file selected"@]);
    }
    lines
}

} // verus!
