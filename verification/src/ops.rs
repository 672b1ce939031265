use vstd::prelude::*;

use crate::text::{blanks, chars_of, decimal, joined, owned, push_char, push_decimal, push_str, texts};
use crate::units::{lemma_scaled_size, push_scaled_size, scaled_size_text, tenths_text};

verus! {

/// The lowercase hexadecimal digit for `d` (below sixteen).
pub open spec fn hex_digit(d: nat) -> char {
    if d < 10 {
        ((48 + d) as u8) as char
    } else {
        ((87 + d) as u8) as char
    }
}

/// A byte as two lowercase hexadecimal digits.
pub open spec fn hex_byte(b: u8) -> Seq<char> {
    seq![hex_digit(b as nat / 16), hex_digit(b as nat % 16)]
}

/// The lowest `width` hexadecimal digits of `v`, zero padded.
pub open spec fn hex_fixed(v: nat, width: nat) -> Seq<char>
    decreases width,
{
    if width == 0 {
        Seq::empty()
    } else {
        hex_fixed(v / 16, (width - 1) as nat).push(hex_digit(v % 16))
    }
}

/// How a byte shows in the text column: itself when printable ASCII, else a dot.
pub open spec fn printable(b: u8) -> char {
    if 0x20 <= b <= 0x7e {
        b as char
    } else {
        '.'
    }
}

/// The hex column of a row: the bytes' digits separated by blanks, padded on the
/// right (a row of at most eight bytes gets one blank more).
pub open spec fn hex_column(chunk: Seq<u8>) -> Seq<char> {
    let n = chunk.len();
    joined(chunk.map_values(|b: u8| hex_byte(b)), " "@) + blanks(
        if n == 16 {
            0
        } else if n > 8 {
            ((16 - n) * 3) as nat
        } else {
            ((16 - n) * 3 + 1) as nat
        },
    )
}

/// How many bytes a hex dump shows: at most 256.
pub open spec fn shown_len(data: Seq<u8>) -> nat {
    if data.len() < 256 {
        data.len()
    } else {
        256
    }
}

/// The bytes of row `i` of a hex dump: sixteen of them, fewer in the last row.
pub open spec fn row_bytes(data: Seq<u8>, i: nat) -> Seq<u8> {
    let end = if 16 * i + 16 < shown_len(data) {
        16 * i + 16
    } else {
        shown_len(data)
    };
    data.subrange(16 * i as int, end as int)
}

/// Row `i` of a hex dump: the offset, the hex column and the text column.
pub open spec fn dump_row(data: Seq<u8>, i: nat) -> Seq<char> {
    let chunk = row_bytes(data, i);
    hex_fixed(16 * i, 8) + "  "@ + hex_column(chunk) + "  |"@ + chunk.map_values(
        |b: u8| printable(b),
    ) + "|"@
}

/// How many rows a hex dump has.
pub open spec fn row_count(data: Seq<u8>) -> nat {
    (shown_len(data) + 15) / 16
}

/// A big-endian 32-bit number from four bytes.
pub open spec fn be_u32(a: u8, b: u8, c: u8, d: u8) -> nat {
    a as nat * 0x1000000 + b as nat * 0x10000 + c as nat * 0x100 + d as nat
}

/// A little-endian 16-bit number from two bytes.
pub open spec fn le_u16(a: u8, b: u8) -> nat {
    a as nat + b as nat * 0x100
}

/// A `Dimensions: WxH` line.
pub open spec fn dimensions_line(w: nat, h: nat) -> Seq<char> {
    "Dimensions: "@ + decimal(w) + "x"@ + decimal(h)
}

/// The lines that name a recognised format (PNG, JPEG, GIF, WebP, ELF) by its
/// signature, with image dimensions where the header holds them; nothing for
/// data shorter than eight bytes or of another format.
pub open spec fn format_lines(d: Seq<u8>) -> Seq<Seq<char>> {
    if d.len() < 8 {
        Seq::empty()
    } else if d[0] == 0x89 && d[1] == 0x50 && d[2] == 0x4e && d[3] == 0x47 {
        seq!["Format: PNG image"@] + (if d.len() >= 24 {
            seq![
                dimensions_line(be_u32(d[16], d[17], d[18], d[19]), be_u32(d[20], d[21], d[22], d[23])),
            ]
        } else {
            Seq::empty()
        }) + seq![Seq::<char>::empty()]
    } else if d[0] == 0xff && d[1] == 0xd8 && d[2] == 0xff {
        seq!["Format: JPEG image"@, Seq::<char>::empty()]
    } else if d[0] == 0x47 && d[1] == 0x49 && d[2] == 0x46 && d[3] == 0x38 {
        seq!["Format: GIF image"@] + (if d.len() >= 10 {
            seq![dimensions_line(le_u16(d[6], d[7]), le_u16(d[8], d[9]))]
        } else {
            Seq::empty()
        }) + seq![Seq::<char>::empty()]
    } else if d[0] == 0x52 && d[1] == 0x49 && d[2] == 0x46 && d[3] == 0x46 && d.len() >= 12 && d[8]
        == 0x57 && d[9] == 0x45 && d[10] == 0x42 && d[11] == 0x50 {
        seq!["Format: WebP image"@, Seq::<char>::empty()]
    } else if d[0] == 0x7f && d[1] == 0x45 && d[2] == 0x4c && d[3] == 0x46 {
        seq!["Format: ELF binary"@, Seq::<char>::empty()]
    } else {
        Seq::empty()
    }
}

/// The lines of a hex preview: the format lines, a heading, one row per sixteen
/// of the first 256 bytes, and a note on how many bytes were left out.
pub open spec fn hex_preview_lines(data: Seq<u8>) -> Seq<Seq<char>> {
    format_lines(data) + seq![
        "Hex dump (first "@ + decimal(shown_len(data)) + " bytes):"@,
        Seq::<char>::empty(),
    ] + Seq::new(row_count(data), |i: int| dump_row(data, i as nat)) + if data.len() > 256 {
        seq!["... ("@ + decimal((data.len() - 256) as nat) + " more bytes)"@]
    } else {
        Seq::empty()
    }
}

fn hex_digit_char(d: u8) -> (c: char)
    requires
        d < 16,
    ensures
        c == hex_digit(d as nat),
{
    if d < 10 {
        (48u8 + d) as char
    } else {
        (87u8 + d) as char
    }
}

/// Appends the lowest `width` hexadecimal digits of `v`.
fn push_hex_fixed(s: &mut String, v: u64, width: u32)
    ensures
        final(s)@ == old(s)@ + hex_fixed(v as nat, width as nat),
    decreases width,
{
    if width > 0 {
        push_hex_fixed(s, v / 16, width - 1);
        push_char(s, hex_digit_char((v % 16) as u8));
    }
    proof {
        assert(final(s)@ =~= old(s)@ + hex_fixed(v as nat, width as nat));
    }
}

/// The hex column of one row.
fn push_hex_column(s: &mut String, chunk: &[u8])
    requires
        1 <= chunk@.len() <= 16,
    ensures
        final(s)@ == old(s)@ + hex_column(chunk@),
{
    let n = chunk.len();
    let ghost parts = chunk@.map_values(|b: u8| hex_byte(b));
    let mut k: usize = 0;
    while k < n
        invariant
            n == chunk@.len(),
            k <= n,
            parts == chunk@.map_values(|b: u8| hex_byte(b)),
            s@ == old(s)@ + joined(parts.take(k as int), " "@),
        decreases n - k,
    {
        proof {
            assert(parts.take(k + 1).drop_last() =~= parts.take(k as int));
        }
        if k > 0 {
            push_char(s, ' ');
        }
        let b = chunk[k];
        push_char(s, hex_digit_char(b / 16));
        push_char(s, hex_digit_char(b % 16));
        proof {
            assert(parts.take(k + 1).last() == hex_byte(b));
            if k == 0 {
                assert(s@ =~= old(s)@ + joined(parts.take(k + 1), " "@));
            } else {
                assert(" "@ =~= seq![' ']) by {
                    reveal_strlit(" ");
                }
                assert(s@ =~= old(s)@ + joined(parts.take(k + 1), " "@));
            }
        }
        k = k + 1;
    }
    proof {
        assert(parts.take(n as int) =~= parts);
    }
    let pad: usize = if n == 16 {
        0
    } else if n > 8 {
        (16 - n) * 3
    } else {
        (16 - n) * 3 + 1
    };
    let ghost before_pad = s@;
    let mut p: usize = 0;
    while p < pad
        invariant
            p <= pad,
            s@ == before_pad + blanks(p as nat),
        decreases pad - p,
    {
        push_char(s, ' ');
        p = p + 1;
        proof {
            assert(s@ =~= before_pad + blanks(p as nat));
        }
    }
}

/// Row `i` of a hex dump.
fn dump_row_text(data: &[u8], i: usize) -> (r: String)
    requires
        i < row_count(data@),
    ensures
        r@ == dump_row(data@, i as nat),
{
    let shown: usize = if data.len() < 256 {
        data.len()
    } else {
        256
    };
    let start = 16 * i;
    let end = if start + 16 < shown {
        start + 16
    } else {
        shown
    };
    let chunk = &data[start..end];
    let mut s = String::new();
    push_hex_fixed(&mut s, start as u64, 8);
    push_str(&mut s, "  ");
    push_hex_column(&mut s, chunk);
    push_str(&mut s, "  |");
    let ghost before = s@;
    let mut k: usize = 0;
    while k < chunk.len()
        invariant
            k <= chunk@.len(),
            s@ == before + chunk@.take(k as int).map_values(|b: u8| printable(b)),
        decreases chunk@.len() - k,
    {
        let b = chunk[k];
        let c: char = if 0x20u8 <= b && b <= 0x7eu8 {
            b as char
        } else {
            '.'
        };
        push_char(&mut s, c);
        k = k + 1;
        proof {
            assert(chunk@.take(k as int).map_values(|b: u8| printable(b)) =~= chunk@.take(
                (k - 1) as int,
            ).map_values(|b: u8| printable(b)).push(printable(b)));
        }
    }
    proof {
        assert(chunk@.take(chunk@.len() as int) =~= chunk@);
    }
    push_str(&mut s, "|");
    proof {
        assert(s@ =~= dump_row(data@, i as nat));
    }
    s
}

/// Appends a `Dimensions: WxH` line.
fn dimensions_text(w: u64, h: u64) -> (r: String)
    ensures
        r@ == dimensions_line(w as nat, h as nat),
{
    let mut s = String::new();
    push_str(&mut s, "Dimensions: ");
    push_decimal(&mut s, w as u128);
    push_str(&mut s, "x");
    push_decimal(&mut s, h as u128);
    s
}

/// The format lines for data; see `format_lines`.
fn format_lines_of(d: &[u8]) -> (r: Vec<String>)
    ensures
        texts(r@) == format_lines(d@),
{
    let mut lines: Vec<String> = Vec::new();
    if d.len() < 8 {
        proof {
            assert(texts(lines@) =~= format_lines(d@));
        }
        return lines;
    }
    if d[0] == 0x89 && d[1] == 0x50 && d[2] == 0x4e && d[3] == 0x47 {
        lines.push(owned("Format: PNG image"));
        if d.len() >= 24 {
            let w = d[16] as u64 * 0x1000000 + d[17] as u64 * 0x10000 + d[18] as u64 * 0x100
                + d[19] as u64;
            let h = d[20] as u64 * 0x1000000 + d[21] as u64 * 0x10000 + d[22] as u64 * 0x100
                + d[23] as u64;
            lines.push(dimensions_text(w, h));
        }
        lines.push(String::new());
    } else if d[0] == 0xff && d[1] == 0xd8 && d[2] == 0xff {
        lines.push(owned("Format: JPEG image"));
        lines.push(String::new());
    } else if d[0] == 0x47 && d[1] == 0x49 && d[2] == 0x46 && d[3] == 0x38 {
        lines.push(owned("Format: GIF image"));
        if d.len() >= 10 {
            let w = d[6] as u64 + d[7] as u64 * 0x100;
            let h = d[8] as u64 + d[9] as u64 * 0x100;
            lines.push(dimensions_text(w, h));
        }
        lines.push(String::new());
    } else if d[0] == 0x52 && d[1] == 0x49 && d[2] == 0x46 && d[3] == 0x46 && d.len() >= 12 && d[8]
        == 0x57 && d[9] == 0x45 && d[10] == 0x42 && d[11] == 0x50 {
        lines.push(owned("Format: WebP image"));
        lines.push(String::new());
    } else if d[0] == 0x7f && d[1] == 0x45 && d[2] == 0x4c && d[3] == 0x46 {
        lines.push(owned("Format: ELF binary"));
        lines.push(String::new());
    }
    proof {
        assert(texts(lines@) =~= format_lines(d@));
    }
    lines
}

/// A hex preview of binary data: the recognised format, if any, then a hex dump
/// of the first 256 bytes, sixteen to a row, and how many bytes were left out.
pub fn hex_preview(data: &[u8]) -> (r: Vec<String>)
    ensures
        texts(r@) == hex_preview_lines(data@),
{
    let mut lines = format_lines_of(data);
    let shown: usize = if data.len() < 256 {
        data.len()
    } else {
        256
    };
    let mut heading = String::new();
    push_str(&mut heading, "Hex dump (first ");
    push_decimal(&mut heading, shown as u128);
    push_str(&mut heading, " bytes):");
    let ghost fmt = texts(lines@);
    let ghost heading_text = heading@;
    lines.push(heading);
    lines.push(String::new());
    let ghost head = texts(lines@);
    proof {
        assert(head =~= fmt + seq![heading_text, Seq::<char>::empty()]);
    }
    let rows = (shown + 15) / 16;
    for i in 0..rows
        invariant
            rows == row_count(data@),
            texts(lines@) == head + Seq::new(i as nat, |k: int| dump_row(data@, k as nat)),
    {
        let row = dump_row_text(data, i);
        let ghost before = lines@;
        lines.push(row);
        proof {
            assert(texts(lines@) =~= texts(before).push(dump_row(data@, i as nat)));
            assert(texts(lines@) =~= head + Seq::new((i + 1) as nat, |k: int| dump_row(data@, k as nat)));
        }
    }
    let ghost body = texts(lines@);
    if data.len() > 256 {
        let mut more = String::new();
        push_str(&mut more, "... (");
        push_decimal(&mut more, (data.len() - 256) as u128);
        push_str(&mut more, " more bytes)");
        let ghost more_text = more@;
        lines.push(more);
        proof {
            assert(texts(lines@) =~= body.push(more_text));
        }
    }
    proof {
        assert(texts(lines@) =~= hex_preview_lines(data@));
    }
    lines
}

/// A hex preview starts by naming the format its signature shows: PNG
/// (`89 50 4E 47`), JPEG (`FF D8 FF`), GIF (`GIF8`), WebP (`RIFF`, then `WEBP`
/// at byte 8) or ELF (`7F E L F`), for data of at least eight bytes. A PNG of at
/// least 24 bytes gives its width and height as big-endian 32-bit numbers at
/// bytes 16 and 20; a GIF of at least 10 bytes as little-endian 16-bit numbers
/// at bytes 6 and 8. A blank line follows. Other data starts with the dump's
/// heading, which says how many bytes (at most 256) it shows.
pub proof fn lemma_format_detection(d: Seq<u8>)
    ensures
        ({
            let l = hex_preview_lines(d);
            let heading = "Hex dump (first "@ + decimal(if d.len() < 256 { d.len() } else { 256 })
                + " bytes):"@;
            let png = d.len() >= 8 && d[0] == 0x89 && d[1] == 0x50 && d[2] == 0x4e && d[3] == 0x47;
            let jpeg = d.len() >= 8 && d[0] == 0xff && d[1] == 0xd8 && d[2] == 0xff;
            let gif = d.len() >= 8 && d[0] == 0x47 && d[1] == 0x49 && d[2] == 0x46 && d[3] == 0x38;
            let webp = d.len() >= 12 && d[0] == 0x52 && d[1] == 0x49 && d[2] == 0x46 && d[3] == 0x46
                && d[8] == 0x57 && d[9] == 0x45 && d[10] == 0x42 && d[11] == 0x50;
            let elf = d.len() >= 8 && d[0] == 0x7f && d[1] == 0x45 && d[2] == 0x4c && d[3] == 0x46;
            &&& png ==> l[0] == "Format: PNG image"@
            &&& png && d.len() >= 24 ==> l[1] == "Dimensions: "@ + decimal(
                d[16] as nat * 16777216 + d[17] as nat * 65536 + d[18] as nat * 256 + d[19] as nat,
            ) + "x"@ + decimal(
                d[20] as nat * 16777216 + d[21] as nat * 65536 + d[22] as nat * 256 + d[23] as nat,
            ) && l[2] == Seq::<char>::empty() && l[3] == heading
            &&& png && d.len() < 24 ==> l[1] == Seq::<char>::empty() && l[2] == heading
            &&& jpeg ==> l[0] == "Format: JPEG image"@ && l[1] == Seq::<char>::empty() && l[2]
                == heading
            &&& gif ==> l[0] == "Format: GIF image"@
            &&& gif && d.len() >= 10 ==> l[1] == "Dimensions: "@ + decimal(
                d[6] as nat + 256 * d[7] as nat,
            ) + "x"@ + decimal(d[8] as nat + 256 * d[9] as nat) && l[2] == Seq::<char>::empty()
                && l[3] == heading
            &&& gif && d.len() < 10 ==> l[1] == Seq::<char>::empty() && l[2] == heading
            &&& webp ==> l[0] == "Format: WebP image"@ && l[1] == Seq::<char>::empty() && l[2]
                == heading
            &&& elf ==> l[0] == "Format: ELF binary"@ && l[1] == Seq::<char>::empty() && l[2]
                == heading
            &&& !png && !jpeg && !gif && !webp && !elf ==> l[0] == heading
        }),
{
}

proof fn lemma_joined_pairs(parts: Seq<Seq<char>>)
    requires
        parts.len() >= 1,
        forall|k: int| 0 <= k < parts.len() ==> (#[trigger] parts[k]).len() == 2,
    ensures
        joined(parts, " "@).len() == 3 * parts.len() - 1,
        forall|k: int|
            0 <= k < parts.len() ==> joined(parts, " "@)[3 * k] == (#[trigger] parts[k])[0]
                && joined(parts, " "@)[3 * k + 1] == parts[k][1],
        forall|k: int|
            0 <= k < parts.len() - 1 ==> (#[trigger] parts[k]).len() == 2 && joined(parts, " "@)[3
                * k + 2] == ' ',
    decreases parts.len(),
{
    reveal_strlit(" ");
    if parts.len() > 1 {
        let prev = parts.drop_last();
        lemma_joined_pairs(prev);
        let jp = joined(prev, " "@);
        let j = joined(parts, " "@);
        assert(j == jp + " "@ + parts.last());
        let n = parts.len() as int;
        assert forall|k: int| 0 <= k < n implies j[3 * k] == (#[trigger] parts[k])[0] && j[3 * k
            + 1] == parts[k][1] by {
            if k < n - 1 {
                assert(prev[k] == parts[k]);
            }
        }
        assert forall|k: int| 0 <= k < n - 1 implies (#[trigger] parts[k]).len() == 2 && j[3 * k + 2]
            == ' ' by {
            if k < n - 2 {
                assert(prev[k] == parts[k]);
            }
        }
    }
}

proof fn lemma_zero_digits(w: nat)
    ensures
        hex_fixed(0, w) == Seq::new(w, |t: int| '0'),
    decreases w,
{
    if w > 0 {
        lemma_zero_digits((w - 1) as nat);
        assert(hex_fixed(0, w) =~= Seq::new(w, |t: int| '0'));
    }
}

/// Row `i` of a hex dump shows the `m` bytes from offset `16 * i` (sixteen, or
/// what is left of the first 256 bytes): the offset in eight lowercase hex
/// digits, two blanks, each byte as two lowercase hex digits (high digit first)
/// with one blank between bytes, the hex column padded to a fixed width, two
/// blanks and a bar, each byte as itself when it is printable ASCII
/// (`0x20..=0x7e`) or as a dot, and a closing bar.
pub proof fn lemma_dump_row(data: Seq<u8>, i: nat)
    requires
        i < row_count(data),
    ensures
        ({
            let shown = if data.len() < 256 { data.len() } else { 256 };
            let start = 16 * i;
            let m: int = if shown - start < 16 { shown - start } else { 16 };
            let text_at: int = if m > 8 { 60 } else { 61 };
            let row = dump_row(data, i);
            &&& 1 <= m <= 16
            &&& row.len() == text_at + m + 1
            &&& forall|t: int| 0 <= t < 6 ==> #[trigger] row[t] == '0'
            &&& row[6] == (if i < 10 { ((48 + i) as u8) as char } else { ((87 + i) as u8) as char })
            &&& row[7] == '0'
            &&& row[8] == ' ' && row[9] == ' '
            &&& forall|a: int|
                start <= a < start + m ==> {
                    let hi = (#[trigger] data[a]) as nat / 16;
                    let lo = data[a] as nat % 16;
                    let at = 10 + 3 * (a - start);
                    &&& row[at] == (if hi < 10 { ((48 + hi) as u8) as char } else { ((87 + hi) as u8) as char })
                    &&& row[at + 1] == (if lo < 10 { ((48 + lo) as u8) as char } else { ((87 + lo) as u8) as char })
                    &&& row[text_at + (a - start)] == (if 0x20 <= data[a] <= 0x7e {
                        data[a] as char
                    } else {
                        '.'
                    })
                    &&& a < start + m - 1 ==> row[at + 2] == ' '
                }
            &&& row[text_at - 1] == '|'
            &&& row[text_at + m] == '|'
        }),
{
    reveal_strlit("  ");
    reveal_strlit("  |");
    reveal_strlit("|");
    let shown = shown_len(data);
    let start = 16 * i;
    let chunk = row_bytes(data, i);
    let m = chunk.len() as int;
    assert(m == (if shown - start < 16 { shown - start } else { 16 }));
    let parts = chunk.map_values(|b: u8| hex_byte(b));
    lemma_joined_pairs(parts);
    lemma_hex_column_width(chunk);
    assert(i < 16);
    lemma_zero_digits(6);
    assert(hex_fixed(16 * i, 8) == hex_fixed(i, 7).push(hex_digit(0)));
    assert(hex_fixed(i, 7) == hex_fixed(0, 6).push(hex_digit(i)));
    let row = dump_row(data, i);
    let offset = hex_fixed(16 * i, 8);
    let col = hex_column(chunk);
    let text = chunk.map_values(|b: u8| printable(b));
    assert(row == offset + "  "@ + col + "  |"@ + text + "|"@);
    assert forall|a: int| start <= a < start + m implies {
        let hi = (#[trigger] data[a]) as nat / 16;
        let lo = data[a] as nat % 16;
        let at = 10 + 3 * (a - start);
        &&& row[at] == (if hi < 10 { ((48 + hi) as u8) as char } else { ((87 + hi) as u8) as char })
        &&& row[at + 1] == (if lo < 10 { ((48 + lo) as u8) as char } else { ((87 + lo) as u8) as char })
        &&& row[(if m > 8 { 60int } else { 61int }) + (a - start)] == (if 0x20 <= data[a] <= 0x7e {
            data[a] as char
        } else {
            '.'
        })
        &&& a < start + m - 1 ==> row[at + 2] == ' '
    } by {
        let k = a - start;
        assert(chunk[k] == data[a]);
        assert(parts[k] == hex_byte(data[a]));
        assert(col[3 * k] == parts[k][0]);
        assert(col[3 * k + 1] == parts[k][1]);
        assert(text[k] == printable(data[a]));
        if a < start + m - 1 {
            assert(parts[k].len() == 2);
            assert(col[3 * k + 2] == ' ');
        }
    }
}

/// A hex preview is laid out as: the `f` format lines (three for a PNG of at
/// least 24 bytes or a GIF of at least 10, with dimensions; two for another
/// recognised format; none otherwise), the heading, a blank line, one row per
/// sixteen of the first 256 bytes (see `lemma_dump_row`), and, when there are more
/// than 256 bytes, a last line saying how many more there are.
pub proof fn lemma_hex_layout(d: Seq<u8>)
    ensures
        ({
            let l = hex_preview_lines(d);
            let png = d.len() >= 8 && d[0] == 0x89 && d[1] == 0x50 && d[2] == 0x4e && d[3] == 0x47;
            let jpeg = d.len() >= 8 && d[0] == 0xff && d[1] == 0xd8 && d[2] == 0xff;
            let gif = d.len() >= 8 && d[0] == 0x47 && d[1] == 0x49 && d[2] == 0x46 && d[3] == 0x38;
            let webp = d.len() >= 12 && d[0] == 0x52 && d[1] == 0x49 && d[2] == 0x46 && d[3] == 0x46
                && d[8] == 0x57 && d[9] == 0x45 && d[10] == 0x42 && d[11] == 0x50;
            let elf = d.len() >= 8 && d[0] == 0x7f && d[1] == 0x45 && d[2] == 0x4c && d[3] == 0x46;
            let f: int = if (png && d.len() >= 24) || (gif && d.len() >= 10) {
                3
            } else if png || jpeg || gif || webp || elf {
                2
            } else {
                0
            };
            let rows: int = ((if d.len() < 256 { d.len() as int } else { 256int }) + 15) / 16;
            &&& l.len() == f + 2 + rows + (if d.len() > 256 { 1int } else { 0int })
            &&& l[f + 1] == Seq::<char>::empty()
            &&& forall|i: int| 0 <= i < rows ==> #[trigger] l[f + 2 + i] == dump_row(d, i as nat)
            &&& d.len() > 256 ==> l[f + 2 + rows] == "... ("@ + decimal((d.len() - 256) as nat)
                + " more bytes)"@
        }),
{
    let f = format_lines(d).len() as int;
    let rows = row_count(d) as int;
    let l = hex_preview_lines(d);
    assert forall|i: int| 0 <= i < rows implies #[trigger] l[f + 2 + i] == dump_row(d, i as nat) by {}
}

/// A hex dump shows at most sixteen rows, all of the first 256 bytes.
pub proof fn lemma_hex_rows(data: Seq<u8>)
    ensures
        row_count(data) <= 16,
        16 * row_count(data) >= shown_len(data),
        row_count(data) == 0 || 16 * (row_count(data) - 1) < shown_len(data),
{
}

/// Every hex dump row is as wide as the others: 47 hex-column characters for
/// more than eight bytes, 48 for at most eight.
pub proof fn lemma_hex_column_width(chunk: Seq<u8>)
    requires
        1 <= chunk.len() <= 16,
    ensures
        hex_column(chunk).len() == if chunk.len() > 8 { 47nat } else { 48nat },
{
    lemma_joined_hex_len(chunk.map_values(|b: u8| hex_byte(b)));
}

proof fn lemma_joined_hex_len(parts: Seq<Seq<char>>)
    requires
        parts.len() >= 1,
        forall|k: int| 0 <= k < parts.len() ==> (#[trigger] parts[k]).len() == 2,
    ensures
        joined(parts, " "@).len() == 3 * parts.len() - 1,
    decreases parts.len(),
{
    reveal_strlit(" ");
    if parts.len() > 1 {
        lemma_joined_hex_len(parts.drop_last());
    }
}

/// A byte count for the directory summary: `B`, `KB`, `MB` or `GB` after a blank.
pub open spec fn bytes_text(size: u64) -> Seq<char> {
    scaled_size_text(size, " B"@, " KB"@, " MB"@, " GB"@)
}

/// A byte count in the directory summary gives the size with the units ` B`,
/// ` KB`, ` MB` and ` GB` as `lemma_scaled_size` describes: below 1024 the exact
/// byte count, above it the size rounded to the nearest tenth of the unit.
pub proof fn lemma_bytes_text(size: u64)
    ensures
        size < 1024 ==> bytes_text(size) == decimal(size as nat) + " B"@,
        0x400 <= size < 0x10_0000 ==> exists|t: nat|
            bytes_text(size) == #[trigger] tenths_text(t, " KB"@) && -0x400 <= 2 * (10 * size - t
                * 0x400) <= 0x400,
        0x10_0000 <= size < 0x4000_0000 ==> exists|t: nat|
            bytes_text(size) == #[trigger] tenths_text(t, " MB"@) && -0x10_0000 <= 2 * (10 * size - t
                * 0x10_0000) <= 0x10_0000,
        0x4000_0000 <= size < 0x20_0000_0000_0000 ==> exists|t: nat|
            bytes_text(size) == #[trigger] tenths_text(t, " GB"@) && -0x4000_0000 <= 2 * (10 * size
                - t * 0x4000_0000) <= 0x4000_0000,
{
    lemma_scaled_size(size, " B"@, " KB"@, " MB"@, " GB"@);
}

/// A byte count as text, with a blank before the unit.
pub fn format_bytes(size: u64) -> (r: String)
    ensures
        r@ == bytes_text(size),
{
    let mut s = String::new();
    push_scaled_size(&mut s, size, " B", " KB", " MB", " GB");
    proof {
        assert(s@ =~= bytes_text(size));
    }
    s
}

/// The lines that describe a directory from what was counted in it.
pub open spec fn dir_summary_lines(path: Seq<char>, files: u64, dirs: u64, total: u64) -> Seq<
    Seq<char>,
> {
    seq![
        "Directory: "@ + path,
        Seq::<char>::empty(),
        "  Files:       "@ + decimal(files as nat),
        "  Directories: "@ + decimal(dirs as nat),
        "  Total size:  "@ + bytes_text(total),
    ]
}

/// The preview of a directory: its path, how many files and directories it holds
/// and the total size of the files.
pub fn dir_summary(path: &str, files: u64, dirs: u64, total: u64) -> (r: Vec<String>)
    ensures
        texts(r@) == dir_summary_lines(path@, files, dirs, total),
{
    let mut lines: Vec<String> = Vec::new();
    let mut first = String::new();
    push_str(&mut first, "Directory: ");
    push_str(&mut first, path);
    lines.push(first);
    lines.push(String::new());
    let mut f = String::new();
    push_str(&mut f, "  Files:       ");
    push_decimal(&mut f, files as u128);
    lines.push(f);
    let mut d = String::new();
    push_str(&mut d, "  Directories: ");
    push_decimal(&mut d, dirs as u128);
    lines.push(d);
    let mut t = String::new();
    push_str(&mut t, "  Total size:  ");
    let b = format_bytes(total);
    push_str(&mut t, b.as_str());
    lines.push(t);
    proof {
        assert(texts(lines@) =~= dir_summary_lines(path@, files, dirs, total));
    }
    lines
}

/// What was counted among the first `n` items of a directory: files, directories
/// and the bytes of the files. An item is whether it is a directory and its
/// length, or `None` where its metadata could not be read; such items count for
/// nothing.
pub open spec fn tally(items: Seq<Option<(bool, u64)>>, n: nat) -> (nat, nat, nat)
    decreases n,
{
    if n == 0 || n > items.len() {
        (0, 0, 0)
    } else {
        let prev = tally(items, (n - 1) as nat);
        match items[n - 1] {
            Some(m) => if m.0 {
                (prev.0, prev.1 + 1, prev.2)
            } else {
                (prev.0 + 1, prev.1, (prev.2 + m.1) as nat)
            },
            None => prev,
        }
    }
}

/// The tally of all items.
pub open spec fn tally_all(items: Seq<Option<(bool, u64)>>) -> (nat, nat, nat) {
    tally(items, items.len())
}

proof fn lemma_tally_filters(items: Seq<Option<(bool, u64)>>, n: nat)
    requires
        n <= items.len(),
    ensures
        ({
            let f = items.take(n as int).filter(|x: Option<(bool, u64)>| x is Some && !(x->0).0);
            let d = items.take(n as int).filter(|x: Option<(bool, u64)>| x is Some && (x->0).0);
            &&& tally(items, n).0 == f.len()
            &&& tally(items, n).1 == d.len()
            &&& tally(items, n).2 == f.fold_left(0int, |acc: int, x: Option<(bool, u64)>| acc + (x->0).1)
        }),
    decreases n,
{
    reveal(Seq::filter);
    if n > 0 {
        lemma_tally_filters(items, (n - 1) as nat);
        let pf = |x: Option<(bool, u64)>| x is Some && !(x->0).0;
        let add = |acc: int, x: Option<(bool, u64)>| acc + (x->0).1;
        assert(items.take(n as int).drop_last() =~= items.take(n - 1));
        assert(items.take(n as int).last() == items[n - 1]);
        let prevf = items.take(n - 1).filter(pf);
        if pf(items[n - 1]) {
            assert(items.take(n as int).filter(pf) == prevf.push(items[n - 1]));
            assert(prevf.push(items[n - 1]).drop_last() =~= prevf);
            assert(prevf.push(items[n - 1]).fold_left(0int, add) == prevf.fold_left(0int, add)
                + (items[n - 1]->0).1);
        } else {
            assert(items.take(n as int).filter(pf) == prevf);
        }
    }
}

/// The directory summary counts the items whose metadata could be read: the
/// files (items that are not directories), the directories, and the sum of the
/// files' lengths; unreadable items count for nothing.
pub proof fn lemma_tally_counts(items: Seq<Option<(bool, u64)>>)
    ensures
        ({
            let f = items.filter(|x: Option<(bool, u64)>| x is Some && !(x->0).0);
            let d = items.filter(|x: Option<(bool, u64)>| x is Some && (x->0).0);
            &&& tally_all(items).0 == f.len()
            &&& tally_all(items).1 == d.len()
            &&& tally_all(items).2 == f.fold_left(0int, |acc: int, x: Option<(bool, u64)>| acc + (x->0).1)
        }),
{
    lemma_tally_filters(items, items.len());
    assert(items.take(items.len() as int) =~= items);
}

/// Counts never shrink as more items are taken, and stay within the number of
/// items taken.
proof fn lemma_tally_grows(items: Seq<Option<(bool, u64)>>, n: nat, m: nat)
    requires
        n <= m <= items.len(),
    ensures
        tally(items, n).2 <= tally(items, m).2,
        tally(items, m).0 + tally(items, m).1 <= m,
    decreases m,
{
    if m > 0 {
        if n < m {
            lemma_tally_grows(items, n, (m - 1) as nat);
        } else {
            lemma_tally_grows(items, (m - 1) as nat, (m - 1) as nat);
        }
    }
}

/// Whether the lengths of the files among `items` add up to a `u64`.
pub fn dir_bytes_fit(items: &[Option<(bool, u64)>]) -> (r: bool)
    ensures
        r == (tally_all(items@).2 <= u64::MAX),
{
    let mut total: u64 = 0;
    for i in 0..items.len()
        invariant
            total as nat == tally(items@, i as nat).2,
    {
        match items[i] {
            Some(m) => if !m.0 {
                if total > u64::MAX - m.1 {
                    proof {
                        lemma_tally_grows(items@, (i + 1) as nat, items@.len());
                    }
                    return false;
                }
                total = total + m.1;
            },
            None => {},
        }
    }
    true
}

/// The preview of a directory from what could be read of its items: the files
/// and directories counted and the bytes of the files added up.
pub fn dir_preview(path: &str, items: &[Option<(bool, u64)>]) -> (r: Vec<String>)
    requires
        tally_all(items@).2 <= u64::MAX,
    ensures
        texts(r@) == dir_summary_lines(
            path@,
            tally_all(items@).0 as u64,
            tally_all(items@).1 as u64,
            tally_all(items@).2 as u64,
        ),
{
    let mut files: u64 = 0;
    let mut dirs: u64 = 0;
    let mut total: u64 = 0;
    for i in 0..items.len()
        invariant
            files as nat == tally(items@, i as nat).0,
            dirs as nat == tally(items@, i as nat).1,
            total as nat == tally(items@, i as nat).2,
            tally_all(items@).2 <= u64::MAX,
    {
        proof {
            lemma_tally_grows(items@, (i + 1) as nat, items@.len());
            lemma_tally_grows(items@, i as nat, i as nat);
        }
        match items[i] {
            Some(m) => if m.0 {
                dirs = dirs + 1;
            } else {
                files = files + 1;
                total = total + m.1;
            },
            None => {},
        }
    }
    dir_summary(path, files, dirs, total)
}

/// Whether `name` names an entry of a directory and nothing beyond it: it is not
/// empty, holds no `/`, and is neither `.` nor `..`.
pub open spec fn plain_name(name: Seq<char>) -> bool {
    &&& name.len() > 0
    &&& !name.contains('/')
    &&& name != "."@
    &&& name != ".."@
}

/// Whether a new name keeps a renamed entry in its own directory.
pub fn is_plain_name(name: &str) -> (r: bool)
    ensures
        r == plain_name(name@),
{
    let cs = chars_of(name);
    if cs.len() == 0 {
        return false;
    }
    let mut i: usize = 0;
    while i < cs.len()
        invariant
            cs@ == name@,
            i <= cs.len(),
            forall|j: int| 0 <= j < i ==> cs@[j] != '/',
        decreases cs.len() - i,
    {
        if cs[i] == '/' {
            return false;
        }
        i = i + 1;
    }
    proof {
        reveal_strlit(".");
        reveal_strlit("..");
    }
    let dot = cs.len() == 1 && cs[0] == '.';
    let dots = cs.len() == 2 && cs[0] == '.' && cs[1] == '.';
    proof {
        if name@ == "."@ {
            assert(dot);
        }
        if name@ == ".."@ {
            assert(dots);
        }
        if dot {
            assert(name@ =~= "."@);
        }
        if dots {
            assert(name@ =~= ".."@);
        }
    }
    !dot && !dots
}

/// A byte that counts against text: control characters other than tab, line
/// feed, vertical tab, form feed, carriage return and escape (and below 8).
pub open spec fn is_control_byte(b: u8) -> bool {
    b < 0x08 || (b > 0x0d && b < 0x20 && b != 0x1b)
}

/// How many of the first `n` bytes count against text.
pub open spec fn control_count(data: Seq<u8>, n: nat) -> nat
    decreases n,
{
    if n == 0 {
        0
    } else {
        control_count(data, (n - 1) as nat) + if is_control_byte(data[n - 1]) {
            1nat
        } else {
            0nat
        }
    }
}

/// Whether data looks binary: more than a tenth of its first 512 bytes count
/// against text.
pub open spec fn looks_binary(data: Seq<u8>) -> bool {
    let checked = if data.len() < 512 {
        data.len()
    } else {
        512
    };
    control_count(data, checked) > checked / 10
}

proof fn lemma_control_count_filter(d: Seq<u8>, n: nat)
    requires
        n <= d.len(),
    ensures
        control_count(d, n) == d.take(n as int).filter(
            |b: u8| b < 0x08 || (0x0d < b < 0x20 && b != 0x1b),
        ).len(),
    decreases n,
{
    reveal(Seq::filter);
    if n > 0 {
        lemma_control_count_filter(d, (n - 1) as nat);
        assert(d.take(n as int).drop_last() =~= d.take(n - 1));
        assert(d.take(n as int).last() == d[n - 1]);
    }
}

/// Data looks binary exactly when more than a tenth of its first 512 bytes (all
/// of it when shorter) are control bytes other than tab, line feed, vertical tab,
/// form feed, carriage return and escape.
pub proof fn lemma_binary_threshold(d: Seq<u8>)
    ensures
        ({
            let c = if d.len() < 512 { d.len() } else { 512 };
            let bad = d.take(c as int).filter(
                |b: u8| b < 0x08 || (0x0d < b < 0x20 && b != 0x1b),
            ).len();
            looks_binary(d) == (10 * bad > c)
        }),
{
    let c: nat = if d.len() < 512 { d.len() } else { 512 };
    lemma_control_count_filter(d, c);
    let bad = control_count(d, c);
    assert((bad > c / 10) == (10 * bad > c)) by (nonlinear_arith);
}

/// Whether data looks binary; see `looks_binary`.
pub fn is_binary(data: &[u8]) -> (r: bool)
    ensures
        r == looks_binary(data@),
{
    let checked: usize = if data.len() < 512 {
        data.len()
    } else {
        512
    };
    let mut count: usize = 0;
    for k in 0..checked
        invariant
            checked <= data@.len(),
            count == control_count(data@, k as nat),
            count <= k,
    {
        let b = data[k];
        if b < 0x08 || (b > 0x0d && b < 0x20 && b != 0x1b) {
            count = count + 1;
        }
    }
    count > checked / 10
}

/// What `String::from_utf8_lossy` gives for some bytes: the text with each
/// invalid sequence replaced by U+FFFD.
pub uninterp spec fn utf8_lossy(bytes: Seq<u8>) -> Seq<char>;

/// Decodes bytes as UTF-8 with `String::from_utf8_lossy`.
/// Trusted: the result is `utf8_lossy` of the bytes, a function of them alone.
#[verifier::external_body]
fn lossy_text(data: &[u8]) -> (r: String)
    ensures
        r@ == utf8_lossy(data@),
{
    String::from_utf8_lossy(data).into_owned()
}

/// A line without its carriage return at the end, if it has one.
pub open spec fn strip_cr(line: Seq<char>) -> Seq<char> {
    if line.len() > 0 && line.last() == '\r' {
        line.drop_last()
    } else {
        line
    }
}

/// The finished lines and the line in progress after the first `n` characters.
pub open spec fn split_state(t: Seq<char>, n: nat) -> (Seq<Seq<char>>, Seq<char>)
    decreases n,
{
    if n == 0 {
        (Seq::empty(), Seq::empty())
    } else {
        let prev = split_state(t, (n - 1) as nat);
        if t[n - 1] == '\n' {
            (prev.0.push(strip_cr(prev.1)), Seq::empty())
        } else {
            (prev.0, prev.1.push(t[n - 1]))
        }
    }
}

/// The lines of a text as `str::lines` gives them: split at line feeds, a
/// carriage return before a line feed dropped, no empty line after a final line
/// feed.
pub open spec fn text_lines(t: Seq<char>) -> Seq<Seq<char>> {
    let st = split_state(t, t.len());
    if st.1.len() > 0 {
        st.0.push(st.1)
    } else {
        st.0
    }
}

proof fn lemma_split_state_parts(t: Seq<char>, n: nat)
    requires
        n <= t.len(),
    ensures
        !split_state(t, n).1.contains('\n'),
        forall|k: int|
            0 <= k < split_state(t, n).0.len() ==> !(#[trigger] split_state(t, n).0[k]).contains(
                '\n',
            ),
        !t.contains('\r') ==> !split_state(t, n).1.contains('\r') && joined(
            split_state(t, n).0.push(split_state(t, n).1),
            "\n"@,
        ) == t.take(n as int),
    decreases n,
{
    reveal_strlit("\n");
    if n > 0 {
        lemma_split_state_parts(t, (n - 1) as nat);
        let prev = split_state(t, (n - 1) as nat);
        let st = split_state(t, n);
        let c = t[n - 1];
        assert(t.take(n as int) == t.take(n - 1).push(c));
        if c == '\n' {
            let line = strip_cr(prev.1);
            assert(!line.contains('\n')) by {
                if line.contains('\n') {
                    let k = choose|k: int| 0 <= k < line.len() && line[k] == '\n';
                    assert(prev.1[k] == '\n');
                }
            }
            assert forall|k: int| 0 <= k < st.0.len() implies !(#[trigger] st.0[k]).contains('\n') by {
                if k < prev.0.len() {
                    assert(st.0[k] == prev.0[k]);
                }
            }
            assert(!st.1.contains('\n'));
            if !t.contains('\r') {
                if prev.1.len() > 0 {
                    assert(prev.1.contains(prev.1.last()));
                    assert(prev.1.last() != '\r');
                }
                assert(line == prev.1);
                let parts = st.0.push(st.1);
                assert(parts.drop_last() == prev.0.push(prev.1));
                assert(joined(parts, "\n"@) == joined(prev.0.push(prev.1), "\n"@) + "\n"@ + st.1);
                assert(joined(parts, "\n"@) =~= t.take(n as int));
            }
        } else {
            assert(st.1 == prev.1.push(c));
            assert(!st.1.contains('\n')) by {
                if st.1.contains('\n') {
                    let k = choose|k: int| 0 <= k < st.1.len() && st.1[k] == '\n';
                    if k < prev.1.len() {
                        assert(prev.1[k] == '\n');
                    }
                }
            }
            if !t.contains('\r') {
                assert(c != '\r') by {
                    assert(t[n - 1] == c);
                }
                assert(!st.1.contains('\r')) by {
                    if st.1.contains('\r') {
                        let k = choose|k: int| 0 <= k < st.1.len() && st.1[k] == '\r';
                        if k < prev.1.len() {
                            assert(prev.1[k] == '\r');
                        }
                    }
                }
                let parts = st.0.push(st.1);
                let before = prev.0.push(prev.1);
                if prev.0.len() == 0 {
                    assert(joined(parts, "\n"@) == st.1);
                    assert(joined(before, "\n"@) == prev.1);
                } else {
                    assert(parts.drop_last() == prev.0);
                    assert(before.drop_last() == prev.0);
                    assert(joined(parts, "\n"@) == joined(prev.0, "\n"@) + "\n"@ + st.1);
                    assert(joined(before, "\n"@) == joined(prev.0, "\n"@) + "\n"@ + prev.1);
                }
                assert(joined(parts, "\n"@) =~= t.take(n as int));
            }
        }
    } else {
        assert(split_state(t, 0).0.push(split_state(t, 0).1) =~= seq![Seq::<char>::empty()]);
        assert(t.take(0) =~= Seq::<char>::empty());
    }
}

/// The lines of a text hold no line feed; for a text without carriage returns,
/// joining the lines with line feeds gives back the text, less a final line
/// feed.
pub proof fn lemma_text_lines(t: Seq<char>)
    ensures
        forall|k: int| 0 <= k < text_lines(t).len() ==> !(#[trigger] text_lines(t)[k]).contains('\n'),
        !t.contains('\r') ==> joined(text_lines(t), "\n"@) == if t.len() > 0 && t.last() == '\n' {
            t.drop_last()
        } else {
            t
        },
{
    reveal_strlit("\n");
    lemma_split_state_parts(t, t.len());
    let st = split_state(t, t.len());
    let ls = text_lines(t);
    assert(t.take(t.len() as int) =~= t);
    assert forall|k: int| 0 <= k < ls.len() implies !(#[trigger] ls[k]).contains('\n') by {
        if k < st.0.len() {
            assert(ls[k] == st.0[k]);
        }
    }
    if !t.contains('\r') && t.len() > 0 {
        let prev = split_state(t, (t.len() - 1) as nat);
        if t.last() == '\n' {
            assert(st.1.len() == 0);
        } else {
            assert(st.1 == prev.1.push(t.last()));
        }
        if st.1.len() == 0 {
            let parts = st.0.push(st.1);
            if st.0.len() == 0 {
                assert(joined(parts, "\n"@) == st.1);
            } else {
                assert(parts.drop_last() == st.0);
                assert(joined(parts, "\n"@) == joined(st.0, "\n"@) + "\n"@ + st.1);
                assert(t =~= joined(st.0, "\n"@) + "\n"@);
                assert(t.drop_last() =~= joined(st.0, "\n"@));
            }
        }
    }
}

/// The lines of a text; see `text_lines`.
pub fn lines_of(text: &str) -> (r: Vec<String>)
    ensures
        texts(r@) == text_lines(text@),
{
    let cs = chars_of(text);
    let mut done: Vec<String> = Vec::new();
    let mut cur = String::new();
    for k in 0..cs.len()
        invariant
            cs@ == text@,
            texts(done@) == split_state(text@, k as nat).0,
            cur@ == split_state(text@, k as nat).1,
    {
        let c = cs[k];
        if c == '\n' {
            let cur_chars = chars_of(cur.as_str());
            let mut line = String::new();
            let n = cur_chars.len();
            let keep = if n > 0 && cur_chars[n - 1] == '\r' {
                n - 1
            } else {
                n
            };
            for m in 0..keep
                invariant
                    keep <= cur_chars@.len(),
                    line@ == cur_chars@.take(m as int),
            {
                push_char(&mut line, cur_chars[m]);
                proof {
                    assert(cur_chars@.take(m + 1) =~= cur_chars@.take(m as int).push(cur_chars@[m as int]));
                }
            }
            proof {
                assert(line@ =~= strip_cr(cur@));
            }
            let ghost before = done@;
            done.push(line);
            proof {
                assert(texts(done@) =~= texts(before).push(strip_cr(cur@)));
            }
            cur = String::new();
        } else {
            push_char(&mut cur, c);
        }
    }
    if !cur.as_str().is_empty() {
        let ghost before = done@;
        let ghost last = cur@;
        done.push(cur);
        proof {
            assert(texts(done@) =~= texts(before).push(last));
        }
    }
    done
}

/// The lines of a text preview: at most `max_lines` lines, and how many more
/// there are when there are more.
pub open spec fn text_preview_lines(t: Seq<char>, max_lines: nat) -> Seq<Seq<char>> {
    let ls = text_lines(t);
    if ls.len() > max_lines {
        ls.take(max_lines as int).push("... ("@ + decimal((ls.len() - max_lines) as nat) + " more lines)"@)
    } else {
        ls
    }
}

/// A text preview has at most one line more than asked for: all the lines of a
/// text that has no more than `max_lines`, else its first `max_lines` lines and
/// a last line saying how many more there are.
pub proof fn lemma_text_preview_len(t: Seq<char>, max_lines: nat)
    ensures
        text_preview_lines(t, max_lines).len() <= max_lines + 1,
        text_lines(t).len() <= max_lines ==> text_preview_lines(t, max_lines) == text_lines(t),
        text_lines(t).len() > max_lines ==> {
            let p = text_preview_lines(t, max_lines);
            &&& p.len() == max_lines + 1
            &&& forall|k: int| 0 <= k < max_lines ==> #[trigger] p[k] == text_lines(t)[k]
            &&& p[max_lines as int] == "... ("@ + decimal((text_lines(t).len() - max_lines) as nat)
                + " more lines)"@
        },
{
}

/// A file preview is the read error after `Error reading file: `, a note for an
/// empty file, the hex preview when more than a tenth of the first 512 bytes are
/// control bytes (see `lemma_binary_threshold`), and otherwise the text preview
/// of the bytes decoded as UTF-8 (invalid sequences replaced).
pub proof fn lemma_file_preview(read: Result<Seq<u8>, Seq<char>>, max_lines: nat)
    ensures
        read matches Err(e) ==> file_preview_text(read, max_lines) == seq![
            "Error reading file: "@ + e,
        ],
        read matches Ok(d) ==> {
            let c = if d.len() < 512 { d.len() } else { 512 };
            let bad = d.take(c as int).filter(
                |b: u8| b < 0x08 || (0x0d < b < 0x20 && b != 0x1b),
            ).len();
            &&& d.len() == 0 ==> file_preview_text(read, max_lines) == seq!["(empty file)"@]
            &&& d.len() > 0 && 10 * bad > c ==> file_preview_text(read, max_lines)
                == hex_preview_lines(d)
            &&& d.len() > 0 && 10 * bad <= c ==> file_preview_text(read, max_lines)
                == text_preview_lines(utf8_lossy(d), max_lines)
        },
{
    if let Ok(d) = read {
        lemma_binary_threshold(d);
    }
}

/// The preview of a file from what reading it gave: the read error, a note on an
/// empty file, a hex preview for binary data, or the first lines of the text.
pub open spec fn file_preview_text(read: Result<Seq<u8>, Seq<char>>, max_lines: nat) -> Seq<Seq<char>> {
    match read {
        Err(e) => seq!["Error reading file: "@ + e],
        Ok(data) => if data.len() == 0 {
            seq!["(empty file)"@]
        } else if looks_binary(data) {
            hex_preview_lines(data)
        } else {
            text_preview_lines(utf8_lossy(data), max_lines)
        },
    }
}

/// The preview of a file from what reading it gave; see `file_preview_text`.
pub fn file_preview_lines(read: &Result<Vec<u8>, String>, max_lines: usize) -> (r: Vec<String>)
    ensures
        texts(r@) == file_preview_text(
            match read {
                Ok(d) => Ok(d@),
                Err(e) => Err(e@),
            },
            max_lines as nat,
        ),
{
    match read {
        Err(e) => {
            let mut line = String::new();
            push_str(&mut line, "Error reading file: ");
            push_str(&mut line, e.as_str());
            let mut r: Vec<String> = Vec::new();
            r.push(line);
            proof {
                assert(texts(r@) =~= seq!["Error reading file: "@ + e@]);
            }
            r
        },
        Ok(data) => {
            if data.len() == 0 {
                let mut r: Vec<String> = Vec::new();
                r.push(owned("(empty file)"));
                proof {
                    assert(texts(r@) =~= seq!["(empty file)"@]);
                }
                return r;
            }
            if is_binary(data.as_slice()) {
                return hex_preview(data.as_slice());
            }
            let text = lossy_text(data.as_slice());
            let all = lines_of(text.as_str());
            if all.len() > max_lines {
                let mut r: Vec<String> = Vec::new();
                for k in 0..max_lines
                    invariant
                        max_lines < all.len(),
                        texts(r@) == texts(all@).take(k as int),
                {
                    r.push(all[k].clone());
                    proof {
                        assert(texts(all@).take(k + 1) =~= texts(all@).take(k as int).push(all@[k as int]@));
                        assert(texts(r@) =~= texts(all@).take(k + 1));
                    }
                }
                let mut more = String::new();
                push_str(&mut more, "... (");
                push_decimal(&mut more, (all.len() - max_lines) as u128);
                push_str(&mut more, " more lines)");
                let ghost before = r@;
                let ghost more_text = more@;
                r.push(more);
                proof {
                    assert(texts(r@) =~= texts(before).push(more_text));
                }
                r
            } else {
                all
            }
        },
    }
}

} // verus!
