//! Hex dumps of data, with the references in it.
use crate::text::{chars_of, decimal, decimal_string, string_of};
use core::ops::Range;
use vstd::prelude::*;
use vstd::string::StringExecFns;

verus! {

/// Bytes with the references in them.
#[derive(Debug)]
pub struct DataPart {
    pub bytes: Vec<u8>,
    pub refs: Vec<Ref>,
}

/// A reference: its place in the bytes, and the name of its target.
#[derive(Debug)]
pub struct Ref {
    pub range: Range<usize>,
    pub name: String,
}

/// The character of a hexadecimal digit.
pub open spec fn hex_digit(d: nat) -> char {
    if d < 10 {
        (48 + d) as u8 as char
    } else {
        (55 + d) as u8 as char
    }
}

/// A number in hexadecimal digits.
pub open spec fn hex(n: nat) -> Seq<char>
    decreases n,
{
    if n < 16 {
        seq![hex_digit(n)]
    } else {
        hex(n / 16).push(hex_digit(n % 16))
    }
}

/// A character several times.
pub open spec fn repeated(c: char, count: int) -> Seq<char> {
    if count <= 0 {
        Seq::empty()
    } else {
        Seq::new(count as nat, |i: int| c)
    }
}

/// A number in hexadecimal digits, with zeros in front of it.
pub open spec fn padded_hex(n: nat, width: int) -> Seq<char> {
    repeated('0', width - hex(n).len()) + hex(n)
}

fn hex_digit_char(d: u64) -> (r: char)
    requires
        d < 16,
    ensures
        r == hex_digit(d as nat),
{
    if d < 10 {
        (48 + d as u8) as char
    } else {
        (55 + d as u8) as char
    }
}

fn push_repeated(out: &mut String, c: char, count: usize)
    ensures
        final(out)@ == old(out)@ + repeated(c, count as int),
{
    let ghost before = out@;
    let mut i: usize = 0;
    assert(out@ =~= before + repeated(c, 0));
    while i < count
        invariant
            i <= count,
            out@ == before + repeated(c, i as int),
        decreases count - i,
    {
        out.push(c);
        i = i + 1;
        assert(out@ =~= before + repeated(c, i as int));
    }
}

fn push_padded_hex(out: &mut String, n: u64, width: usize)
    ensures
        final(out)@ == old(out)@ + padded_hex(n as nat, width as int),
    decreases n,
{
    let ghost before = out@;
    let rest: usize = if width > 0 {
        width - 1
    } else {
        0
    };
    if n >= 16 {
        push_padded_hex(out, n / 16, rest);
    } else {
        push_repeated(out, '0', rest);
    }
    out.push(hex_digit_char(n % 16));
    assert(out@ =~= before + padded_hex(n as nat, width as int));
}

/// The foreground and background color codes of a reference: pairs with strong contrast.
pub open spec fn colors(i: nat) -> (Seq<char>, Seq<char>) {
    match (i % 13) as u8 {
        0 => ("97"@, "41"@),
        1 => ("30"@, "42"@),
        2 => ("97"@, "44"@),
        3 => ("30"@, "43"@),
        4 => ("97"@, "45"@),
        5 => ("30"@, "46"@),
        6 => ("30"@, "47"@),
        7 => ("97"@, "101"@),
        8 => ("30"@, "102"@),
        9 => ("97"@, "104"@),
        10 => ("30"@, "103"@),
        11 => ("30"@, "106"@),
        _ => ("97"@, "105"@),
    }
}

/// The foreground and background color codes of a reference.
fn palette(i: usize) -> (r: (&'static str, &'static str))
    ensures
        (r.0@, r.1@) == colors(i as nat),
{
    match i % 13 {
        0 => ("97", "41"),
        1 => ("30", "42"),
        2 => ("97", "44"),
        3 => ("30", "43"),
        4 => ("97", "45"),
        5 => ("30", "46"),
        6 => ("30", "47"),
        7 => ("97", "101"),
        8 => ("30", "102"),
        9 => ("97", "104"),
        10 => ("30", "103"),
        11 => ("30", "106"),
        _ => ("97", "105"),
    }
}

/// A text in the colors of a reference.
pub open spec fn colored(i: nat, text: Seq<char>) -> Seq<char> {
    "\x1b["@ + colors(i).0 + ";"@ + colors(i).1 + "m"@ + text + "\x1b[0m"@
}

/// The codes that start the colors of a reference.
fn push_color(out: &mut String, i: usize)
    ensures
        final(out)@ == old(out)@ + ("\x1b["@ + colors(i as nat).0 + ";"@ + colors(i as nat).1 + "m"@),
{
    let ghost before = out@;
    let (fg, bg) = palette(i);
    out.append("\x1b[");
    out.append(fg);
    out.append(";");
    out.append(bg);
    out.append("m");
    assert(out@ =~= before + ("\x1b["@ + colors(i as nat).0 + ";"@ + colors(i as nat).1 + "m"@));
}

/// The number of the last reference that covers a byte.
pub open spec fn ref_at(refs: Seq<Ref>, byte: int) -> Option<nat>
    decreases refs.len(),
{
    if refs.len() == 0 {
        None
    } else if refs.last().range.start <= byte < refs.last().range.end {
        Some((refs.len() - 1) as nat)
    } else {
        ref_at(refs.drop_last(), byte)
    }
}

/// A text that stands for a byte, in color if a reference covers the byte.
pub open spec fn marked(refs: Seq<Ref>, byte: int, color: bool, text: Seq<char>) -> Seq<char> {
    match ref_at(refs, byte) {
        Some(i) => if color {
            colored(i, text)
        } else {
            text
        },
        None => text,
    }
}

/// Number of bytes in a line.
pub const COLS: usize = 16;

/// The hexadecimal cell with number `j` of the line that starts at a byte. There is a gap in the
/// middle of the line.
pub open spec fn cell_text(bytes: Seq<u8>, refs: Seq<Ref>, color: bool, start: int, j: int) -> Seq<
    char,
> {
    (if j == 8 {
        " "@
    } else {
        Seq::empty()
    }) + (if start + j < bytes.len() {
        marked(refs, start + j, color, padded_hex(bytes[start + j] as nat, 2)) + " "@
    } else {
        "   "@
    })
}

/// The first hexadecimal cells of a line.
pub open spec fn cells_text(
    bytes: Seq<u8>,
    refs: Seq<Ref>,
    color: bool,
    start: int,
    count: int,
) -> Seq<char>
    decreases count,
{
    if count <= 0 {
        Seq::empty()
    } else {
        cells_text(bytes, refs, color, start, count - 1) + cell_text(
            bytes,
            refs,
            color,
            start,
            count - 1,
        )
    }
}

/// The character that stands for a byte: a middle dot where it is not printable.
pub open spec fn byte_char(byte: u8) -> char {
    if 0x20 <= byte <= 0x7e {
        byte as char
    } else {
        '\u{b7}'
    }
}

/// The characters of the bytes from `start` on, up to `end`.
pub open spec fn chars_text(bytes: Seq<u8>, refs: Seq<Ref>, color: bool, start: int, end: int) -> Seq<
    char,
>
    decreases end - start,
{
    if end <= start {
        Seq::empty()
    } else {
        chars_text(bytes, refs, color, start, end - 1) + marked(
            refs,
            end - 1,
            color,
            seq![byte_char(bytes[end - 1])],
        )
    }
}

/// End of the line that starts at a byte.
pub open spec fn line_end(bytes: Seq<u8>, start: int) -> int {
    if start + COLS <= bytes.len() {
        start + COLS
    } else {
        bytes.len() as int
    }
}

/// The line that starts at a byte: its offset, the bytes in hexadecimal digits and as characters.
pub open spec fn line_text(
    part_base: int,
    bytes: Seq<u8>,
    refs: Seq<Ref>,
    color: bool,
    start: int,
) -> Seq<char> {
    padded_hex((part_base + start) as nat, 8) + "  "@ + cells_text(
        bytes,
        refs,
        color,
        start,
        COLS as int,
    ) + " |"@ + chars_text(bytes, refs, color, start, line_end(bytes, start)) + "|\n"@
}

/// Where the cell with number `j` starts in a line of cells.
pub open spec fn cell_start(j: int) -> int {
    if j >= 8 {
        3 * j + 1
    } else {
        3 * j
    }
}

/// The number of the cell that covers a place in a line of cells, if there is one.
pub open spec fn cell_of(p: int) -> Option<int> {
    if 0 <= p < 24 {
        Some(p / 3)
    } else if 25 <= p < 49 {
        Some((p - 1) / 3)
    } else {
        None
    }
}

/// A line below the cells in which the cells from `first` to `last` are underlined.
pub open spec fn underlined(ann: Seq<char>, first: int, last: int) -> Seq<char> {
    Seq::new(
        ann.len(),
        |p: int|
            match cell_of(p) {
                Some(j) => if first <= j <= last {
                    if j == first && p == cell_start(j) {
                        '\u{2514}'
                    } else if j == last && p == cell_start(j) + 2 {
                        '\u{2518}'
                    } else {
                        '\u{2500}'
                    }
                } else {
                    ann[p]
                },
                None => ann[p],
            },
    )
}

/// A line with a label from a place on; the label replaces parts of lines only.
pub open spec fn labelled(ann: Seq<char>, at: int, label: Seq<char>) -> Seq<char> {
    Seq::new(
        ann.len(),
        |p: int|
            if at <= p < at + label.len() && ann[p] == '\u{2500}' {
                label[p - at]
            } else {
                ann[p]
            },
    )
}

/// The label of a reference that covers several bytes, or one.
pub open spec fn label_text(number: nat, span: int) -> Seq<char> {
    if span == 1 {
        decimal(number)
    } else {
        "["@ + decimal(number) + "]"@
    }
}

/// The first and last byte of a reference in the line that starts at a byte, if there are any.
pub open spec fn part_in_line(r: Ref, start: int) -> Option<(int, int)> {
    let from = if r.range.start >= start {
        r.range.start as int
    } else {
        start
    };
    let to = if r.range.end <= start + COLS {
        r.range.end as int
    } else {
        start + COLS
    };
    if from < to && from < start + COLS && to > start {
        Some((from, to - 1))
    } else {
        None
    }
}

/// A line below the cells with one more reference.
pub open spec fn with_ref(ann: Seq<char>, r: Ref, number: nat, start: int) -> Seq<char> {
    match part_in_line(r, start) {
        None => ann,
        Some((from, to)) => {
            let lined = underlined(ann, from - start, to - start);
            if from == r.range.start {
                labelled(lined, cell_start(from - start) + 1, label_text(number, to - from + 1))
            } else {
                lined
            }
        },
    }
}

/// The line below the cells of the line that starts at a byte.
pub open spec fn annotations(refs: Seq<Ref>, start: int) -> Seq<char>
    decreases refs.len(),
{
    if refs.len() == 0 {
        repeated(' ', 50)
    } else {
        with_ref(annotations(refs.drop_last(), start), refs.last(), refs.len(), start)
    }
}

/// Whether a reference is in the line that starts at a byte.
pub open spec fn has_ref(refs: Seq<Ref>, start: int) -> bool {
    exists|i: int| 0 <= i < refs.len() && part_in_line(#[trigger] refs[i], start) is Some
}

/// The line that starts at a byte, and the line below it that shows the references. With colors
/// there is no such line.
pub open spec fn block_text(
    part_base: int,
    bytes: Seq<u8>,
    refs: Seq<Ref>,
    color: bool,
    start: int,
) -> Seq<char> {
    line_text(part_base, bytes, refs, color, start) + (if !color && has_ref(refs, start) {
        "          "@ + annotations(refs, start) + "\n"@
    } else {
        Seq::empty()
    })
}

/// The first lines.
pub open spec fn blocks_text(
    part_base: int,
    bytes: Seq<u8>,
    refs: Seq<Ref>,
    color: bool,
    count: int,
) -> Seq<char>
    decreases count,
{
    if count <= 0 {
        Seq::empty()
    } else {
        blocks_text(part_base, bytes, refs, color, count - 1) + block_text(
            part_base,
            bytes,
            refs,
            color,
            (count - 1) * COLS,
        )
    }
}

/// Number of lines.
pub open spec fn line_count(len: int) -> int {
    (len + 15) / 16
}

/// The line that describes a reference.
pub open spec fn ref_text(part_base: int, r: Ref, i: nat, color: bool) -> Seq<char> {
    "  ["@ + (if color {
        colored(i, decimal(i + 1)) + " "@
    } else {
        decimal(i + 1)
    }) + "] "@ + r.name@ + "   range=0x"@ + padded_hex((r.range.start + part_base) as nat, 4)
        + "..0x"@ + padded_hex((r.range.end + part_base) as nat, 4) + " ("@ + decimal(
        (if r.range.end >= r.range.start {
            r.range.end - r.range.start
        } else {
            0
        }) as nat,
    ) + ")\n"@
}

/// The lines that describe references.
pub open spec fn refs_text(part_base: int, refs: Seq<Ref>, color: bool) -> Seq<char>
    decreases refs.len(),
{
    if refs.len() == 0 {
        Seq::empty()
    } else {
        refs_text(part_base, refs.drop_last(), color) + ref_text(
            part_base,
            refs.last(),
            (refs.len() - 1) as nat,
            color,
        )
    }
}

/// The dump of bytes with references.
pub open spec fn part_text(part_base: int, bytes: Seq<u8>, refs: Seq<Ref>, color: bool) -> Seq<char> {
    blocks_text(part_base, bytes, refs, color, line_count(bytes.len() as int)) + (if refs.len() > 0 {
        "  REFS (this part)\n"@ + refs_text(part_base, refs, color)
    } else {
        Seq::empty()
    }) + "\n"@
}

/// Finds the references that cover bytes.
fn bytes_to_refs(len: usize, refs: &Vec<Ref>) -> (r: Vec<Option<usize>>)
    requires
        forall|i: int|
            0 <= i < refs@.len() && (#[trigger] refs@[i]).range.start < refs@[i].range.end
                ==> refs@[i].range.end <= len,
    ensures
        r@.len() == len,
        forall|b: int|
            0 <= b < len ==> match ref_at(refs@, b) {
                Some(i) => #[trigger] r@[b] == Some(i as usize) && i < refs@.len(),
                None => r@[b] is None,
            },
{
    let mut result: Vec<Option<usize>> = Vec::new();
    let mut b: usize = 0;
    while b < len
        invariant
            b <= len,
            result@.len() == b,
            forall|k: int| 0 <= k < b ==> #[trigger] result@[k] is None,
        decreases len - b,
    {
        result.push(None);
        b = b + 1;
    }
    let ghost all = refs@;
    let mut i: usize = 0;
    assert(all.take(0) =~= Seq::<Ref>::empty());
    while i < refs.len()
        invariant
            i <= all.len(),
            all == refs@,
            result@.len() == len,
            forall|i: int|
                0 <= i < all.len() && (#[trigger] all[i]).range.start < all[i].range.end
                    ==> all[i].range.end <= len,
            forall|b: int|
                0 <= b < len ==> match ref_at(all.take(i as int), b) {
                    Some(k) => #[trigger] result@[b] == Some(k as usize) && k < i,
                    None => result@[b] is None,
                },
        decreases all.len() - i,
    {
        let ghost before = result@;
        let ghost range = all[i as int].range;
        let start: usize = refs[i].range.start;
        let end: usize = refs[i].range.end;
        let mut b: usize = start;
        while b < end
            invariant
                start < end ==> start <= b <= end,
                start >= end ==> b == start,
                start < end ==> end <= len,
                result@.len() == len == before.len(),
                forall|k: int|
                    0 <= k < len ==> #[trigger] result@[k] == if start <= k < b {
                        Some(i)
                    } else {
                        before[k]
                    },
            decreases end - b,
        {
            result.set(b, Some(i));
            b = b + 1;
        }
        proof {
            assert(all.take(i + 1).drop_last() =~= all.take(i as int));
            assert(all.take(i + 1).last() == all[i as int]);
            assert forall|k: int| 0 <= k < len implies match ref_at(all.take(i + 1), k) {
                Some(m) => #[trigger] result@[k] == Some(m as usize) && m < i + 1,
                None => result@[k] is None,
            } by {
            }
        }
        i = i + 1;
    }
    assert(all.take(i as int) =~= all);
    result
}

/// Appends a byte of a line.
fn push_cell(
    out: &mut String,
    bytes: &Vec<u8>,
    refs: &Vec<Ref>,
    byte_to_ref: &Vec<Option<usize>>,
    color: bool,
    start: usize,
    j: usize,
)
    requires
        byte_to_ref@.len() == bytes@.len(),
        forall|b: int|
            0 <= b < bytes@.len() ==> match ref_at(refs@, b) {
                Some(i) => #[trigger] byte_to_ref@[b] == Some(i as usize) && i < refs@.len(),
                None => byte_to_ref@[b] is None,
            },
        start + j <= usize::MAX,
    ensures
        final(out)@ == old(out)@ + cell_text(bytes@, refs@, color, start as int, j as int),
{
    let ghost before = out@;
    let count: usize = refs.len();
    if j == 8 {
        out.append(" ");
    }
    if start + j < bytes.len() {
        let byte = bytes[start + j];
        let owner = byte_to_ref[start + j];
        match owner {
            Some(id) => {
                if color {
                    push_color(out, id);
                    push_padded_hex(out, byte as u64, 2);
                    out.append("\x1b[0m");
                } else {
                    push_padded_hex(out, byte as u64, 2);
                }
            },
            None => {
                push_padded_hex(out, byte as u64, 2);
            },
        }
        out.append(" ");
    } else {
        out.append("   ");
    }
    assert(out@ =~= before + cell_text(bytes@, refs@, color, start as int, j as int));
}

/// Appends the character of a byte.
fn push_char(
    out: &mut String,
    bytes: &Vec<u8>,
    refs: &Vec<Ref>,
    byte_to_ref: &Vec<Option<usize>>,
    color: bool,
    at: usize,
)
    requires
        byte_to_ref@.len() == bytes@.len(),
        forall|b: int|
            0 <= b < bytes@.len() ==> match ref_at(refs@, b) {
                Some(i) => #[trigger] byte_to_ref@[b] == Some(i as usize) && i < refs@.len(),
                None => byte_to_ref@[b] is None,
            },
        at < bytes@.len(),
    ensures
        final(out)@ == old(out)@ + marked(
            refs@,
            at as int,
            color,
            seq![byte_char(bytes@[at as int])],
        ),
{
    let ghost before = out@;
    let count: usize = refs.len();
    let byte = bytes[at];
    let ch: char = if 0x20 <= byte && byte <= 0x7e {
        byte as char
    } else {
        '\u{b7}'
    };
    let owner = byte_to_ref[at];
    match owner {
        Some(id) => {
            if color {
                push_color(out, id);
                out.push(ch);
                out.append("\x1b[0m");
            } else {
                out.push(ch);
            }
        },
        None => {
            out.push(ch);
        },
    }
    assert(out@ =~= before + marked(
        refs@,
        at as int,
        color,
        seq![byte_char(bytes@[at as int])],
    ));
}

/// Appends a line.
fn push_line(
    out: &mut String,
    part_base: usize,
    bytes: &Vec<u8>,
    refs: &Vec<Ref>,
    byte_to_ref: &Vec<Option<usize>>,
    color: bool,
    start: usize,
)
    requires
        byte_to_ref@.len() == bytes@.len(),
        forall|b: int|
            0 <= b < bytes@.len() ==> match ref_at(refs@, b) {
                Some(i) => #[trigger] byte_to_ref@[b] == Some(i as usize) && i < refs@.len(),
                None => byte_to_ref@[b] is None,
            },
        start < bytes@.len(),
        part_base + bytes@.len() <= usize::MAX,
        bytes@.len() + COLS <= usize::MAX,
    ensures
        final(out)@ == old(out)@ + line_text(
            part_base as int,
            bytes@,
            refs@,
            color,
            start as int,
        ),
{
    let ghost before = out@;
    push_padded_hex(out, (part_base + start) as u64, 8);
    out.append("  ");
    let ghost head = out@;
    let mut j: usize = 0;
    assert(out@ =~= head + cells_text(bytes@, refs@, color, start as int, 0));
    while j < COLS
        invariant
            j <= COLS,
            byte_to_ref@.len() == bytes@.len(),
            forall|b: int|
                0 <= b < bytes@.len() ==> match ref_at(refs@, b) {
                    Some(i) => #[trigger] byte_to_ref@[b] == Some(i as usize) && i < refs@.len(),
                    None => byte_to_ref@[b] is None,
                },
            start < bytes@.len(),
            bytes@.len() + COLS <= usize::MAX,
            out@ == head + cells_text(bytes@, refs@, color, start as int, j as int),
        decreases COLS - j,
    {
        push_cell(out, bytes, refs, byte_to_ref, color, start, j);
        j = j + 1;
        assert(out@ =~= head + cells_text(bytes@, refs@, color, start as int, j as int));
    }
    out.append(" |");
    let ghost middle = out@;
    let end: usize = if start + COLS <= bytes.len() {
        start + COLS
    } else {
        bytes.len()
    };
    let mut at: usize = start;
    assert(out@ =~= middle + chars_text(bytes@, refs@, color, start as int, at as int));
    while at < end
        invariant
            start <= at <= end <= bytes@.len(),
            byte_to_ref@.len() == bytes@.len(),
            forall|b: int|
                0 <= b < bytes@.len() ==> match ref_at(refs@, b) {
                    Some(i) => #[trigger] byte_to_ref@[b] == Some(i as usize) && i < refs@.len(),
                    None => byte_to_ref@[b] is None,
                },
            out@ == middle + chars_text(bytes@, refs@, color, start as int, at as int),
        decreases end - at,
    {
        push_char(out, bytes, refs, byte_to_ref, color, at);
        at = at + 1;
        assert(out@ =~= middle + chars_text(bytes@, refs@, color, start as int, at as int));
    }
    out.append("|\n");
    assert(out@ =~= before + line_text(part_base as int, bytes@, refs@, color, start as int));
}

fn exec_cell_start(j: usize) -> (r: usize)
    requires
        j < COLS,
    ensures
        r == cell_start(j as int),
        r + 3 <= 49,
{
    if j >= 8 {
        3 * j + 1
    } else {
        3 * j
    }
}

/// Underlines cells.
fn underline(ann: &mut Vec<char>, first: usize, last: usize)
    requires
        old(ann)@.len() == 50,
        first <= last < COLS,
    ensures
        final(ann)@ == underlined(old(ann)@, first as int, last as int),
{
    let ghost before = ann@;
    let mut j: usize = first;
    while j <= last
        invariant
            first <= j <= last + 1 <= COLS,
            ann@.len() == 50 == before.len(),
            forall|p: int|
                0 <= p < 50 ==> #[trigger] ann@[p] == match cell_of(p) {
                    Some(c) => if first <= c < j {
                        underlined(before, first as int, last as int)[p]
                    } else {
                        before[p]
                    },
                    None => before[p],
                },
        decreases last + 1 - j,
    {
        let at: usize = exec_cell_start(j);
        let left: char = if j == first {
            '\u{2514}'
        } else {
            '\u{2500}'
        };
        let right: char = if j == last {
            '\u{2518}'
        } else {
            '\u{2500}'
        };
        let ghost old_ann = ann@;
        ann.set(at, left);
        ann.set(at + 1, '\u{2500}');
        ann.set(at + 2, right);
        proof {
            assert forall|p: int| 0 <= p < 50 implies #[trigger] ann@[p] == match cell_of(p) {
                Some(c) => if first <= c < j + 1 {
                    underlined(before, first as int, last as int)[p]
                } else {
                    before[p]
                },
                None => before[p],
            } by {
                if cell_of(p) == Some(j as int) {
                    assert(at <= p <= at + 2);
                } else {
                    assert(!(at <= p <= at + 2));
                }
            }
        }
        j = j + 1;
    }
    assert(ann@ =~= underlined(before, first as int, last as int));
}

/// Puts a label on a line.
fn put_label(ann: &mut Vec<char>, at: usize, label: &String)
    requires
        old(ann)@.len() == 50,
        at <= 50,
    ensures
        final(ann)@ == labelled(old(ann)@, at as int, label@),
{
    let ghost before = ann@;
    let chars = chars_of(label.as_str());
    let mut k: usize = 0;
    while k < chars.len() && k < 50 - at
        invariant
            at <= 50,
            k <= chars@.len(),
            k <= 50 - at,
            chars@ == label@,
            ann@.len() == 50 == before.len(),
            forall|p: int|
                0 <= p < 50 ==> #[trigger] ann@[p] == if at <= p < at + k && before[p]
                    == '\u{2500}' {
                    label@[p - at]
                } else {
                    before[p]
                },
        decreases chars@.len() - k,
    {
        assert(ann@[at + k] == before[at + k]);
        if ann[at + k] == '\u{2500}' {
            ann.set(at + k, chars[k]);
        }
        k = k + 1;
    }
    assert(ann@ =~= labelled(before, at as int, label@));
}

/// Adds a reference to the line below the cells. Tells whether the reference is in the line.
fn annotate(ann: &mut Vec<char>, r: &Ref, number: usize, start: usize) -> (found: bool)
    requires
        old(ann)@.len() == 50,
        start + COLS <= usize::MAX,
    ensures
        final(ann)@.len() == 50,
        final(ann)@ == with_ref(old(ann)@, *r, number as nat, start as int),
        found == (part_in_line(*r, start as int) is Some),
{
    let from: usize = if r.range.start >= start {
        r.range.start
    } else {
        start
    };
    let to: usize = if r.range.end <= start + COLS {
        r.range.end
    } else {
        start + COLS
    };
    if !(from < to && from < start + COLS && to > start) {
        return false;
    }
    let first: usize = from - start;
    let last: usize = to - 1 - start;
    underline(ann, first, last);
    if from == r.range.start {
        let digits = decimal_string(number as u64);
        let label = if first == last {
            digits
        } else {
            let mut text = "[".to_owned();
            text.append(digits.as_str());
            text.append("]");
            text
        };
        assert(label@ =~= label_text(number as nat, to - from));
        let at: usize = exec_cell_start(first) + 1;
        put_label(ann, at, &label);
    }
    true
}

/// Appends the line below the cells, if there are references in the line above.
fn push_annotations(out: &mut String, refs: &Vec<Ref>, start: usize)
    requires
        start + COLS <= usize::MAX,
    ensures
        final(out)@ == old(out)@ + (if has_ref(refs@, start as int) {
            "          "@ + annotations(refs@, start as int) + "\n"@
        } else {
            Seq::empty()
        }),
{
    let ghost before = out@;
    let mut ann: Vec<char> = Vec::new();
    let mut k: usize = 0;
    while k < 50
        invariant
            k <= 50,
            ann@ == repeated(' ', k as int),
        decreases 50 - k,
    {
        ann.push(' ');
        k = k + 1;
        assert(ann@ =~= repeated(' ', k as int));
    }
    let ghost all = refs@;
    let mut found = false;
    let mut i: usize = 0;
    assert(all.take(0) =~= Seq::<Ref>::empty());
    while i < refs.len()
        invariant
            i <= all.len(),
            all == refs@,
            start + COLS <= usize::MAX,
            ann@.len() == 50,
            ann@ == annotations(all.take(i as int), start as int),
            found == exists|k: int|
                0 <= k < i && part_in_line(#[trigger] all[k], start as int) is Some,
        decreases all.len() - i,
    {
        proof {
            assert(all.take(i + 1).drop_last() =~= all.take(i as int));
            assert(all.take(i + 1).last() == all[i as int]);
        }
        let hit = annotate(&mut ann, &refs[i], i + 1, start);
        if hit {
            assert(part_in_line(all[i as int], start as int) is Some);
            found = true;
        }
        i = i + 1;
    }
    assert(all.take(i as int) =~= all);
    if found {
        out.append("          ");
        let text = string_of(ann.as_slice());
        out.append(text.as_str());
        out.append("\n");
    }
    assert(out@ =~= before + (if has_ref(all, start as int) {
        "          "@ + annotations(all, start as int) + "\n"@
    } else {
        Seq::empty()
    }));
}

/// Appends the line that describes a reference.
#[verifier::spinoff_prover]
#[verifier::rlimit(60)]
fn push_ref(out: &mut String, part_base: usize, r: &Ref, i: usize, color: bool)
    requires
        r.range.start + part_base <= usize::MAX,
        r.range.end + part_base <= usize::MAX,
        i < usize::MAX,
    ensures
        final(out)@ == old(out)@ + ref_text(part_base as int, *r, i as nat, color),
{
    let ghost before = out@;
    out.append("  [");
    let number = decimal_string((i + 1) as u64);
    if color {
        push_color(out, i);
        out.append(number.as_str());
        out.append("\x1b[0m");
        out.append(" ");
    } else {
        out.append(number.as_str());
    }
    out.append("] ");
    out.append(r.name.as_str());
    out.append("   range=0x");
    push_padded_hex(out, (r.range.start + part_base) as u64, 4);
    out.append("..0x");
    push_padded_hex(out, (r.range.end + part_base) as u64, 4);
    out.append(" (");
    let size: usize = r.range.end.saturating_sub(r.range.start);
    out.append(decimal_string(size as u64).as_str());
    out.append(")\n");
    assert(out@ =~= before + ref_text(part_base as int, *r, i as nat, color));
}

/// Appends a hex dump of bytes with references. `part_base` is the offset of the bytes.
///
/// With colors each reference is shown in colors of its own, else below the bytes.
#[verifier::spinoff_prover]
#[verifier::rlimit(60)]
pub fn render_part(out: &mut String, part_base: usize, part: DataPart, color: bool)
    requires
        forall|i: int|
            0 <= i < part.refs@.len() ==> {
                let range = (#[trigger] part.refs@[i]).range;
                &&& range.start < range.end ==> range.end <= part.bytes@.len()
                &&& range.start + part_base <= usize::MAX
                &&& range.end + part_base <= usize::MAX
            },
        part_base + part.bytes@.len() <= usize::MAX,
        part.bytes@.len() + COLS <= usize::MAX,
    ensures
        final(out)@ == old(out)@ + part_text(part_base as int, part.bytes@, part.refs@, color),
{
    let ghost before = out@;
    let bytes = part.bytes;
    let refs = part.refs;
    let byte_to_ref = bytes_to_refs(bytes.len(), &refs);
    let mut start: usize = 0;
    let ghost mut lines: int = 0;
    assert(out@ =~= before + blocks_text(part_base as int, bytes@, refs@, color, 0));
    while start < bytes.len()
        invariant
            start == lines * COLS,
            0 <= lines <= line_count(bytes@.len() as int),
            start < bytes@.len() + COLS,
            lines > 0 ==> start - COLS < bytes@.len(),
            start >= bytes@.len() ==> lines == line_count(bytes@.len() as int),
            byte_to_ref@.len() == bytes@.len(),
            forall|b: int|
                0 <= b < bytes@.len() ==> match ref_at(refs@, b) {
                    Some(i) => #[trigger] byte_to_ref@[b] == Some(i as usize) && i < refs@.len(),
                    None => byte_to_ref@[b] is None,
                },
            part_base + bytes@.len() <= usize::MAX,
            bytes@.len() + COLS <= usize::MAX,
            out@ == before + blocks_text(part_base as int, bytes@, refs@, color, lines),
        decreases bytes@.len() + COLS - start,
    {
        let ghost so_far = out@;
        push_line(out, part_base, &bytes, &refs, &byte_to_ref, color, start);
        if !color {
            push_annotations(out, &refs, start);
        }
        proof {
            lines = lines + 1;
            assert(out@ =~= so_far + block_text(
                part_base as int,
                bytes@,
                refs@,
                color,
                (lines - 1) * COLS,
            ));
            assert(out@ =~= before + blocks_text(part_base as int, bytes@, refs@, color, lines));
        }
        start = start + COLS;
    }
    if !refs.is_empty() {
        out.append("  REFS (this part)\n");
        let ghost head = out@;
        let ghost all = refs@;
        let mut i: usize = 0;
        assert(all.take(0) =~= Seq::<Ref>::empty());
        assert(out@ =~= head + refs_text(part_base as int, all.take(0), color));
        while i < refs.len()
            invariant
                i <= all.len(),
                all == refs@,
                forall|i: int|
                    0 <= i < all.len() ==> {
                        let range = (#[trigger] all[i]).range;
                        &&& range.start + part_base <= usize::MAX
                        &&& range.end + part_base <= usize::MAX
                    },
                out@ == head + refs_text(part_base as int, all.take(i as int), color),
            decreases all.len() - i,
        {
            proof {
                assert(all.take(i + 1).drop_last() =~= all.take(i as int));
                assert(all.take(i + 1).last() == all[i as int]);
            }
            push_ref(out, part_base, &refs[i], i, color);
            i = i + 1;
            assert(out@ =~= head + refs_text(part_base as int, all.take(i as int), color));
        }
        assert(all.take(i as int) =~= all);
    }
    out.append("\n");
    assert(out@ =~= before + part_text(part_base as int, bytes@, refs@, color));
}

} // verus!
