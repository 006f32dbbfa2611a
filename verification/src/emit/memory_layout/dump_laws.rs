//! What a dump of bytes shows.
use crate::emit::memory_layout::hexdump::{
    cell_start, cell_text, cells_text, chars_text, hex, padded_hex, ref_at, repeated, Ref,
};
use vstd::prelude::*;

verus! {

/// The number that a hexadecimal digit stands for.
pub open spec fn hex_digit_value(c: char) -> int {
    if '0' <= c <= '9' {
        c as int - '0' as int
    } else {
        c as int - 'A' as int + 10
    }
}

/// The number that hexadecimal digits stand for.
pub open spec fn hex_value(text: Seq<char>) -> int
    decreases text.len(),
{
    if text.len() == 0 {
        0
    } else {
        16 * hex_value(text.drop_last()) + hex_digit_value(text.last())
    }
}

/// The hexadecimal digits of a number stand for it.
pub proof fn lemma_hex_roundtrip(n: nat)
    ensures
        hex_value(hex(n)) == n,
        hex(n).len() > 0,
        n < 256 ==> hex(n).len() <= 2,
    decreases n,
{
    if n < 16 {
        assert(hex(n).drop_last() =~= Seq::<char>::empty());
        assert(hex_value(Seq::<char>::empty()) == 0);
    } else {
        lemma_hex_roundtrip(n / 16);
        assert(hex(n).drop_last() =~= hex(n / 16));
        if n < 256 {
            assert(n / 16 < 16);
            assert(hex(n / 16).len() == 1);
        }
    }
}

proof fn lemma_zeros(count: nat, text: Seq<char>)
    ensures
        hex_value(repeated('0', count as int) + text) == hex_value(text),
    decreases count + text.len(),
{
    let all = repeated('0', count as int) + text;
    if text.len() > 0 {
        assert(all.drop_last() =~= repeated('0', count as int) + text.drop_last());
        lemma_zeros(count, text.drop_last());
    } else if count > 0 {
        let fewer = repeated('0', count - 1);
        assert(all.drop_last() =~= fewer + text);
        lemma_zeros((count - 1) as nat, text);
    } else {
        assert(all =~= text);
    }
}

/// Zeros in front of a number do not change it. They fill it up to a width.
pub proof fn lemma_padded_hex(n: nat, width: int)
    ensures
        hex_value(padded_hex(n, width)) == n,
        padded_hex(n, width).len() >= width,
        hex(n).len() <= width ==> padded_hex(n, width).len() == width,
{
    lemma_hex_roundtrip(n);
    let missing = width - hex(n).len();
    if missing > 0 {
        lemma_zeros(missing as nat, hex(n));
    } else {
        assert(padded_hex(n, width) =~= hex(n));
    }
}

/// In a line without colors, every byte is shown in two hexadecimal digits in its cell.
pub proof fn lemma_cells_show_bytes(bytes: Seq<u8>, refs: Seq<Ref>, start: int, count: int, j: int)
    requires
        0 <= start,
        0 <= count <= 16,
        0 <= j < count,
    ensures
        ({
            let cells = cells_text(bytes, refs, false, start, count);
            &&& cells.len() == if count > 8 {
                3 * count + 1
            } else {
                3 * count
            }
            &&& start + j < bytes.len() ==> hex_value(
                cells.subrange(cell_start(j), cell_start(j) + 2),
            ) == bytes[start + j]
            &&& start + j >= bytes.len() ==> cells.subrange(cell_start(j), cell_start(j) + 2)
                == seq![' ', ' ']
        }),
    decreases count,
{
    reveal_strlit(" ");
    reveal_strlit("   ");
    let cells = cells_text(bytes, refs, false, start, count);
    let init = cells_text(bytes, refs, false, start, count - 1);
    let last = cell_text(bytes, refs, false, start, count - 1);
    assert(cells == init + last);
    if count > 1 {
        lemma_cells_show_bytes(bytes, refs, start, count - 1, if j < count - 1 {
            j
        } else {
            count - 2
        });
    } else {
        assert(init.len() == 0);
    }
    if start + count - 1 < bytes.len() {
        let byte = bytes[start + count - 1];
        lemma_hex_roundtrip(byte as nat);
        lemma_padded_hex(byte as nat, 2);
    }
    let digits = cells.subrange(cell_start(j), cell_start(j) + 2);
    if j < count - 1 {
        assert(digits =~= init.subrange(cell_start(j), cell_start(j) + 2));
    } else if start + j < bytes.len() {
        assert(digits =~= padded_hex(bytes[start + j] as nat, 2));
    } else {
        assert(digits =~= seq![' ', ' ']);
    }
}

/// In a line without colors, every byte is shown as a character.
pub proof fn lemma_chars_show_bytes(bytes: Seq<u8>, refs: Seq<Ref>, start: int, end: int, j: int)
    requires
        0 <= start,
        start + j < end <= bytes.len(),
        0 <= j,
    ensures
        ({
            let chars = chars_text(bytes, refs, false, start, end);
            &&& chars.len() == end - start
            &&& if 0x20 <= bytes[start + j] <= 0x7e {
                chars[j] == bytes[start + j] as char
            } else {
                chars[j] == '\u{b7}'
            }
        }),
    decreases end,
{
    if end > start + 1 {
        lemma_chars_show_bytes(bytes, refs, start, end - 1, if start + j < end - 1 {
            j
        } else {
            0
        });
    } else {
        assert(chars_text(bytes, refs, false, start, end - 1).len() == 0);
    }
}

/// A byte belongs to a reference that covers it, and to the last one of them.
pub proof fn lemma_references_cover_their_bytes(refs: Seq<Ref>, byte: int)
    ensures
        match ref_at(refs, byte) {
            Some(i) => {
                &&& i < refs.len()
                &&& refs[i as int].range.start <= byte < refs[i as int].range.end
                &&& forall|k: int|
                    i < k < refs.len() ==> !((#[trigger] refs[k]).range.start <= byte
                        < refs[k].range.end)
            },
            None => forall|k: int|
                0 <= k < refs.len() ==> !((#[trigger] refs[k]).range.start <= byte
                    < refs[k].range.end),
        },
    decreases refs.len(),
{
    if refs.len() > 0 {
        let init = refs.drop_last();
        lemma_references_cover_their_bytes(init, byte);
        assert forall|k: int| 0 <= k < init.len() implies init[k] == #[trigger] refs[k] by {}
    }
}

} // verus!
