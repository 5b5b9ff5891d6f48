//! The human-aligned table format (not a stable interface): a header of
//! column names and one line per row, each cell left-aligned in its column.
//! Turning JSON rows into cell strings is the caller's.

use vstd::prelude::*;
use vstd::string::*;
use vstd::utf8::encode_utf8;

verus! {

/// A string's length in bytes, as `str::len` counts it.
pub open spec fn byte_len(s: Seq<char>) -> int {
    encode_utf8(s).len() as int
}

/// The width of column `i`: its widest entry, header included, in bytes.
pub open spec fn column_width(cols: Seq<Seq<char>>, rows: Seq<Seq<Seq<char>>>, i: int, upto: int) -> int
    decreases upto,
{
    if upto <= 0 {
        byte_len(cols[i])
    } else {
        let w = column_width(cols, rows, i, upto - 1);
        let c = byte_len(rows[upto - 1][i]);
        if c > w {
            c
        } else {
            w
        }
    }
}

/// `s` left-aligned in `width` characters, as `format!("{:<width$}")` writes
/// it: padded with spaces, never cut.
pub open spec fn left_aligned(s: Seq<char>, width: int) -> Seq<char> {
    let fill = width - s.len();
    s + Seq::new((if fill > 0 { fill } else { 0 }) as nat, |i: int| ' ')
}

/// The first `n` cells of a line, each aligned to its width, two spaces
/// apart.
pub open spec fn aligned_line(cells: Seq<Seq<char>>, widths: Seq<int>, n: int) -> Seq<char>
    decreases n,
{
    if n <= 0 {
        Seq::empty()
    } else if n == 1 {
        left_aligned(cells[0], widths[0])
    } else {
        aligned_line(cells, widths, n - 1) + seq![' ', ' '] + left_aligned(cells[n - 1], widths[n - 1])
    }
}

/// The strings' characters.
pub open spec fn chars_of(s: Seq<String>) -> Seq<Seq<char>> {
    Seq::new(s.len(), |i: int| s[i]@)
}

/// The table's text lines: the header, then one line per row.
pub open spec fn table_text(cols: Seq<Seq<char>>, rows: Seq<Seq<Seq<char>>>) -> Seq<Seq<char>> {
    let widths = Seq::new(cols.len(), |i: int| column_width(cols, rows, i, rows.len() as int));
    seq![aligned_line(cols, widths, cols.len() as int)] + Seq::new(
        rows.len(),
        |r: int| aligned_line(rows[r], widths, cols.len() as int),
    )
}

fn push_aligned(line: &mut String, cell: &String, width: usize)
    ensures
        final(line)@ == old(line)@ + left_aligned(cell@, width as int),
{
    line.append(cell.as_str());
    let chars = cell.as_str().unicode_len();
    let fill: usize = if width > chars { width - chars } else { 0 };
    let ghost after = line@;
    let mut k: usize = 0;
    while k < fill
        invariant
            k <= fill,
            line@ == after + Seq::new(k as nat, |i: int| ' '),
        decreases fill - k,
    {
        proof {
            reveal_strlit(" ");
        }
        line.append(" ");
        k = k + 1;
        proof {
            assert(line@ =~= after + Seq::new(k as nat, |i: int| ' '));
        }
    }
    proof {
        assert(final(line)@ =~= old(line)@ + left_aligned(cell@, width as int));
    }
}

fn render_line(cells: &Vec<String>, widths: &Vec<usize>) -> (line: String)
    requires
        cells@.len() == widths@.len(),
    ensures
        line@ == aligned_line(
            chars_of(cells@),
            Seq::new(widths@.len(), |i: int| widths@[i] as int),
            cells@.len() as int,
        ),
{
    let ghost ws = Seq::new(widths@.len(), |i: int| widths@[i] as int);
    let mut line = String::new();
    let mut i: usize = 0;
    while i < cells.len()
        invariant
            cells@.len() == widths@.len(),
            ws == Seq::new(widths@.len(), |i: int| widths@[i] as int),
            i <= cells@.len(),
            line@ == aligned_line(chars_of(cells@), ws, i as int),
        decreases cells@.len() - i,
    {
        if i > 0 {
            proof {
                reveal_strlit("  ");
            }
            line.append("  ");
        }
        push_aligned(&mut line, &cells[i], widths[i]);
        proof {
            assert(line@ =~= aligned_line(chars_of(cells@), ws, i + 1));
        }
        i = i + 1;
    }
    line
}

/// The aligned table: a header line of column names, then one line per row,
/// each column as wide as its widest entry in bytes, cells left-aligned
/// (padded in characters) and two spaces apart.
pub fn table_lines(cols: &Vec<String>, rows: &Vec<Vec<String>>) -> (lines: Vec<String>)
    requires
        forall|r: int| 0 <= r < rows@.len() ==> (#[trigger] rows@[r])@.len() == cols@.len(),
    ensures
        chars_of(lines@) == table_text(
            chars_of(cols@),
            Seq::new(rows@.len(), |r: int| chars_of(rows@[r]@)),
        ),
{
    let ghost cs = chars_of(cols@);
    let ghost rs = Seq::new(rows@.len(), |r: int| chars_of(rows@[r]@));
    let mut widths: Vec<usize> = Vec::new();
    let mut i: usize = 0;
    while i < cols.len()
        invariant
            i <= cols@.len(),
            cs == chars_of(cols@),
            rs == Seq::new(rows@.len(), |r: int| chars_of(rows@[r]@)),
            forall|r: int| 0 <= r < rows@.len() ==> (#[trigger] rows@[r])@.len() == cols@.len(),
            widths@.len() == i,
            forall|m: int| 0 <= m < i ==> #[trigger] widths@[m] == column_width(cs, rs, m, rs.len() as int),
        decreases cols@.len() - i,
    {
        let mut w: usize = cols[i].as_str().as_bytes().len();
        proof {
            assert(cs[i as int] == cols@[i as int]@);
            assert(w == byte_len(cs[i as int]));
        }
        let mut r: usize = 0;
        while r < rows.len()
            invariant
                i < cols@.len(),
                r <= rows@.len(),
                cs == chars_of(cols@),
                rs == Seq::new(rows@.len(), |r: int| chars_of(rows@[r]@)),
                forall|r: int| 0 <= r < rows@.len() ==> (#[trigger] rows@[r])@.len() == cols@.len(),
                w == column_width(cs, rs, i as int, r as int),
            decreases rows@.len() - r,
        {
            let c = rows[r][i].as_str().as_bytes().len();
            proof {
                assert(rs[r as int][i as int] == rows@[r as int]@[i as int]@);
                assert(c == byte_len(rs[r as int][i as int]));
            }
            if c > w {
                w = c;
            }
            r = r + 1;
        }
        widths.push(w);
        i = i + 1;
    }
    let ghost ws = Seq::new(widths@.len(), |i: int| widths@[i] as int);
    let ghost target = table_text(cs, rs);
    assert(ws =~= Seq::new(cs.len(), |i: int| column_width(cs, rs, i, rs.len() as int)));
    let mut lines: Vec<String> = Vec::new();
    lines.push(render_line(cols, &widths));
    let mut r: usize = 0;
    while r < rows.len()
        invariant
            r <= rows@.len(),
            cs == chars_of(cols@),
            rs == Seq::new(rows@.len(), |r: int| chars_of(rows@[r]@)),
            forall|r: int| 0 <= r < rows@.len() ==> (#[trigger] rows@[r])@.len() == cols@.len(),
            widths@.len() == cols@.len(),
            ws == Seq::new(widths@.len(), |i: int| widths@[i] as int),
            ws =~= Seq::new(cs.len(), |i: int| column_width(cs, rs, i, rs.len() as int)),
            target == table_text(cs, rs),
            lines@.len() == r + 1,
            forall|m: int| 0 <= m <= r ==> #[trigger] lines@[m]@ == target[m],
        decreases rows@.len() - r,
    {
        let line = render_line(&rows[r], &widths);
        proof {
            assert(chars_of(rows@[r as int]@) == rs[r as int]);
        }
        lines.push(line);
        r = r + 1;
    }
    assert(chars_of(lines@) =~= target);
    lines
}

} // verus!
