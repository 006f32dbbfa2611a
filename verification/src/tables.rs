//! Tables of short texts.
use vstd::arithmetic::div_mod::{
    lemma_fundamental_div_mod, lemma_fundamental_div_mod_converse, lemma_mod_sub_multiples_vanish,
    lemma_small_mod,
};
use vstd::prelude::*;
use vstd::string::{StrSliceExecFns, StringExecFns};

verus! {

/// A run of spaces.
pub open spec fn spaces(count: int) -> Seq<char> {
    Seq::new(
        if count > 0 {
            count as nat
        } else {
            0
        },
        |i: int| ' ',
    )
}

/// A text with spaces behind it, up to a width.
pub open spec fn aligned_left(text: Seq<char>, width: int) -> Seq<char> {
    text + spaces(width - text.len())
}

/// A text with spaces before it, up to a width.
pub open spec fn aligned_right(text: Seq<char>, width: int) -> Seq<char> {
    spaces(width - text.len()) + text
}

/// The length of the longest text.
pub open spec fn longest(items: Seq<String>) -> nat
    decreases items.len(),
{
    if items.len() == 0 {
        0
    } else {
        let rest = longest(items.drop_last());
        if items.last()@.len() > rest {
            items.last()@.len()
        } else {
            rest
        }
    }
}

/// The first cells of a table with ten cells in a row.
pub open spec fn cells_text(items: Seq<String>, width: int, count: int) -> Seq<char>
    decreases count,
{
    if count <= 0 {
        Seq::empty()
    } else {
        let i = count - 1;
        let before = if i % 10 == 0 {
            "    "@
        } else {
            " "@
        };
        let behind = if i % 10 == 9 || i == items.len() - 1 {
            "\n"@
        } else {
            Seq::empty()
        };
        cells_text(items, width, i) + before + aligned_left(items[i]@, width) + behind
    }
}

/// A table with a label: all cells are as wide as the longest one.
pub open spec fn table_text(label: Seq<char>, items: Seq<String>) -> Seq<char> {
    "  "@ + label + ":\n"@ + if items.len() == 0 {
        "    <empty>\n"@
    } else {
        cells_text(items, longest(items) as int, items.len() as int)
    }
}

/// Appends spaces up to a width.
fn push_spaces(text: &mut String, len: usize, width: usize)
    ensures
        final(text)@ == old(text)@ + spaces(width - len),
{
    let ghost before = text@;
    let mut i: usize = len;
    assert(text@ =~= before + spaces(0));
    while i < width
        invariant
            len <= i,
            i <= width || i == len,
            text@ == before + spaces(i - len),
        decreases width - i,
    {
        text.append(" ");
        proof {
            reveal_strlit(" ");
            assert(text@ =~= before + spaces(i + 1 - len));
        }
        i = i + 1;
    }
    assert(text@ =~= before + spaces(width - len));
}

fn longest_len(items: &Vec<String>) -> (r: usize)
    ensures
        r == longest(items@),
{
    let ghost all = items@;
    let mut width: usize = 0;
    let mut i: usize = 0;
    assert(all.take(0) =~= Seq::<String>::empty());
    while i < items.len()
        invariant
            i <= all.len(),
            all == items@,
            width == longest(all.take(i as int)),
        decreases all.len() - i,
    {
        let len: usize = items[i].as_str().unicode_len();
        proof {
            assert(all.take(i + 1).drop_last() =~= all.take(i as int));
            assert(all.take(i + 1).last() == all[i as int]);
        }
        if len > width {
            width = len;
        }
        i = i + 1;
    }
    assert(all.take(i as int) =~= all);
    width
}

/// Appends a table with a label: all cells are as wide as the longest one.
pub fn fmt_table(out: &mut String, label: &str, items: &Vec<String>)
    ensures
        final(out)@ == old(out)@ + table_text(label@, items@),
{
    let ghost start = out@;
    out.append("  ");
    out.append(label);
    out.append(":\n");
    if items.len() == 0 {
        out.append("    <empty>\n");
        assert(out@ =~= start + table_text(label@, items@));
        return;
    }
    let width: usize = longest_len(items);
    let ghost head = out@;
    let mut i: usize = 0;
    assert(out@ =~= head + cells_text(items@, width as int, 0));
    while i < items.len()
        invariant
            i <= items@.len(),
            out@ == head + cells_text(items@, width as int, i as int),
        decreases items@.len() - i,
    {
        let ghost before = out@;
        if i % 10 == 0 {
            out.append("    ");
        } else {
            out.append(" ");
        }
        let len: usize = items[i].as_str().unicode_len();
        out.append(items[i].as_str());
        push_spaces(out, len, width);
        if i % 10 == 9 || i == items.len() - 1 {
            out.append("\n");
        }
        assert(out@ =~= head + cells_text(items@, width as int, i + 1));
        i = i + 1;
    }
    assert(out@ =~= start + table_text(label@, items@));
}

/// The cells of the first items of a list: a stand-in is in the place of what is missing before an
/// item. Nothing is missing before the first one.
pub open spec fn filled_cells(
    items: Seq<String>,
    gaps: Seq<bool>,
    placeholder: Seq<char>,
    count: int,
) -> Seq<Seq<char>>
    decreases count,
{
    if count <= 0 {
        Seq::empty()
    } else {
        let before = filled_cells(items, gaps, placeholder, count - 1);
        if count > 1 && gaps[count - 1] {
            before.push(placeholder).push(items[count - 1]@)
        } else {
            before.push(items[count - 1]@)
        }
    }
}

/// A line of cells: each has a width, and a space is between them.
pub open spec fn line_text(cells: Seq<Seq<char>>, width: int) -> Seq<char>
    decreases cells.len(),
{
    if cells.len() == 0 {
        Seq::empty()
    } else if cells.len() == 1 {
        aligned_right(cells[0], width)
    } else {
        line_text(cells.drop_last(), width) + " "@ + aligned_right(cells.last(), width)
    }
}

/// Cells in lines of `max_elements` cells; the last line may hold fewer. Every line starts with a
/// line break, and a space is behind every line but the last.
pub open spec fn lines_text(cells: Seq<Seq<char>>, width: int, max_elements: int) -> Seq<char>
    decreases cells.len(),
{
    if cells.len() == 0 || max_elements <= 0 {
        Seq::empty()
    } else if cells.len() <= max_elements {
        "\n"@ + line_text(cells, width)
    } else {
        "\n"@ + line_text(cells.take(max_elements), width) + " "@ + lines_text(
            cells.skip(max_elements),
            width,
            max_elements,
        )
    }
}

/// What stands between the last of some cells and one more: a line break where the last line is
/// full.
pub open spec fn cell_break(count: int, max_elements: int) -> Seq<char> {
    (if count > 0 {
        " "@
    } else {
        Seq::empty()
    }) + (if count % max_elements == 0 {
        "\n"@
    } else {
        Seq::empty()
    })
}

/// One more cell goes behind the last line, or into a new one if that line is full.
proof fn lemma_one_more_cell(cells: Seq<Seq<char>>, cell: Seq<char>, width: int, max_elements: int)
    requires
        max_elements > 0,
    ensures
        lines_text(cells.push(cell), width, max_elements) == lines_text(cells, width, max_elements)
            + cell_break(cells.len() as int, max_elements) + aligned_right(cell, width),
    decreases cells.len(),
{
    let n = cells.len() as int;
    let longer = cells.push(cell);
    let text = lines_text(cells, width, max_elements) + cell_break(n, max_elements)
        + aligned_right(cell, width);
    if n < max_elements {
        lemma_small_mod(n as nat, max_elements as nat);
        assert(longer.drop_last() =~= cells);
        assert(lines_text(longer, width, max_elements) =~= text);
    } else {
        assert(longer.take(max_elements) =~= cells.take(max_elements));
        assert(longer.skip(max_elements) =~= cells.skip(max_elements).push(cell));
        assert(n % max_elements == (n - max_elements) % max_elements) by {
            lemma_mod_sub_multiples_vanish(n, max_elements);
        }
        if n == max_elements {
            assert(cells.take(max_elements) =~= cells);
            assert(longer.skip(max_elements) =~= seq![cell]);
            lemma_small_mod(0, max_elements as nat);
            assert(line_text(seq![cell], width) == aligned_right(cell, width));
            assert(lines_text(seq![cell], width, max_elements) == "\n"@ + aligned_right(cell, width));
            assert(lines_text(longer, width, max_elements) =~= text);
        } else {
            let rest = cells.skip(max_elements);
            lemma_one_more_cell(rest, cell, width, max_elements);
            assert(cell_break(rest.len() as int, max_elements) == cell_break(n, max_elements));
            assert(lines_text(longer, width, max_elements) =~= text);
        }
    }
}

fn push_right(out: &mut String, text: &str, width: usize)
    ensures
        final(out)@ == old(out)@ + aligned_right(text@, width as int),
{
    let ghost before = out@;
    let len: usize = text.unicode_len();
    push_spaces(out, len, width);
    out.append(text);
    assert(out@ =~= before + aligned_right(text@, width as int));
}

/// Appends a cell behind `column` cells of the last line, or in a new line if that one is full.
/// Returns how many cells the last line holds then.
fn push_cell(
    out: &mut String,
    text: &str,
    width: usize,
    max_elements: usize,
    column: usize,
    Ghost(cells): Ghost<Seq<Seq<char>>>,
) -> (r: usize)
    requires
        max_elements > 0,
        old(out)@ == lines_text(cells, width as int, max_elements as int),
        is_column(cells.len() as int, max_elements as int, column as int),
    ensures
        final(out)@ == lines_text(cells.push(text@), width as int, max_elements as int),
        is_column(cells.len() as int + 1, max_elements as int, r as int),
{
    let ghost before = out@;
    let ghost n = cells.len() as int;
    proof {
        lemma_one_more_cell(cells, text@, width as int, max_elements as int);
        lemma_next_column(n, max_elements as int, column as int);
    }
    if column > 0 {
        out.append(" ");
    }
    let mut next: usize = column;
    if column == 0 || column == max_elements {
        out.append("\n");
        next = 0;
    }
    push_right(out, text, width);
    assert(out@ =~= lines_text(cells.push(text@), width as int, max_elements as int));
    next + 1
}

/// Whether a number is how many cells the last line of some cells holds.
pub open spec fn is_column(count: int, max_elements: int, column: int) -> bool {
    &&& 0 <= column <= max_elements
    &&& column == 0 <==> count == 0
    &&& (count - column) % max_elements == 0
}

proof fn lemma_next_column(count: int, max_elements: int, column: int)
    requires
        count >= 0,
        max_elements > 0,
        is_column(count, max_elements, column),
    ensures
        count % max_elements == 0 <==> column == 0 || column == max_elements,
        column < max_elements ==> (count + 1 - (column + 1)) % max_elements == 0,
        column == 0 || column == max_elements ==> count % max_elements == 0,
{
    lemma_fundamental_div_mod(count - column, max_elements);
    let q = (count - column) / max_elements;
    assert(count == max_elements * q + column);
    if column == max_elements {
        assert(count == max_elements * (q + 1) + 0) by (nonlinear_arith)
            requires
                count == max_elements * q + column,
                column == max_elements,
        ;
        lemma_fundamental_div_mod_converse(
            count,
            max_elements,
            q + 1,
            0,
        );
    } else {
        lemma_fundamental_div_mod_converse(
            count,
            max_elements,
            q,
            column,
        );
    }
}

/// Text of a list in lines of `max_elements` items. Where something is missing before an item, a
/// stand-in is in its place.
pub fn debug_fmt_mostly_filled(
    items: &Vec<String>,
    gaps: &Vec<bool>,
    width: usize,
    max_elements: usize,
    placeholder: &str,
) -> (r: String)
    requires
        gaps@.len() == items@.len(),
        max_elements > 0,
    ensures
        r@ == lines_text(
            filled_cells(items@, gaps@, placeholder@, items@.len() as int),
            width as int,
            max_elements as int,
        ),
{
    let mut out = String::new();
    let mut column: usize = 0;
    let mut i: usize = 0;
    proof {
        lemma_small_mod(0, max_elements as nat);
    }
    while i < items.len()
        invariant
            i <= items@.len() == gaps@.len(),
            max_elements > 0,
            is_column(
                filled_cells(items@, gaps@, placeholder@, i as int).len() as int,
                max_elements as int,
                column as int,
            ),
            out@ == lines_text(
                filled_cells(items@, gaps@, placeholder@, i as int),
                width as int,
                max_elements as int,
            ),
        decreases items@.len() - i,
    {
        let ghost mut cells = filled_cells(items@, gaps@, placeholder@, i as int);
        if i > 0 && gaps[i] {
            column = push_cell(&mut out, placeholder, width, max_elements, column, Ghost(cells));
            proof {
                cells = cells.push(placeholder@);
            }
        }
        column = push_cell(
            &mut out,
            items[i].as_str(),
            width,
            max_elements,
            column,
            Ghost(cells),
        );
        i = i + 1;
    }
    out
}

} // verus!
