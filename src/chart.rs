//! A fixed-width text chart of the vendor consents of a consent string.

use crate::ast::push_char;
use crate::consent::ConsentString;
use vstd::prelude::*;

verus! {

/// The character of the decimal digit `d`.
pub open spec fn digit(d: int) -> char {
    ((48 + d) as u8) as char
}

/// Whether column `i` of a header line is a space: three columns of margin, then a space
/// before each block of ten.
pub open spec fn header_gap(i: int) -> bool {
    i < 3 || (i - 3) % 11 == 0
}

/// The first header line: the tens digit of each column of a row.
pub open spec fn header_tens() -> Seq<char> {
    Seq::new(113, |i: int| if header_gap(i) { ' ' } else { digit((i - 3) / 11) })
}

/// The second header line: the units digit of each column of a row.
pub open spec fn header_units() -> Seq<char> {
    Seq::new(113, |i: int| if header_gap(i) { ' ' } else { digit((i - 3) % 11 - 1) })
}

/// A row number, right-aligned in three columns.
pub open spec fn row_label(row: int) -> Seq<char> {
    seq![
        if row >= 100 { digit(row / 100) } else { ' ' },
        if row >= 10 { digit((row / 10) % 10) } else { ' ' },
        digit(row % 10),
    ]
}

/// The column of vendor `vid`: `#` where it is granted, a space otherwise, with a space before
/// each group of ten.
pub open spec fn cell(cs: ConsentString, vid: int) -> Seq<char> {
    let mark = if 1 <= vid < cs.vendor_consents.len() && cs.vendor_consents@[vid] {
        '#'
    } else {
        ' '
    };
    if vid % 10 == 0 {
        seq![' ', mark]
    } else {
        seq![mark]
    }
}

/// The columns of vendors `a` up to `b`.
pub open spec fn cells(cs: ConsentString, a: int, b: int) -> Seq<char>
    decreases b - a,
{
    if b <= a {
        Seq::empty()
    } else {
        cells(cs, a, b - 1) + cell(cs, b - 1)
    }
}

/// The line of row `row`, which shows vendors `100 * row` to `100 * row + 99`, as far as
/// `max_vendor_id`.
pub open spec fn row_line(cs: ConsentString, row: int) -> Seq<char> {
    let end = if 100 * (row + 1) < cs.max_vendor_id + 1 {
        100 * (row + 1)
    } else {
        cs.max_vendor_id + 1
    };
    row_label(row) + cells(cs, 100 * row, end)
}

/// The lines of row `row`: the two header lines before every tenth row, then the row's line.
pub open spec fn chart_block(cs: ConsentString, row: int) -> Seq<Seq<char>> {
    if row % 10 == 0 {
        seq![header_tens(), header_units(), row_line(cs, row)]
    } else {
        seq![row_line(cs, row)]
    }
}

/// The lines of the first `n` rows.
pub open spec fn chart_upto(cs: ConsentString, n: int) -> Seq<Seq<char>>
    decreases n,
{
    if n <= 0 {
        Seq::empty()
    } else {
        chart_upto(cs, n - 1) + chart_block(cs, n - 1)
    }
}

/// The whole chart: one row for each hundred vendor IDs from 0 to `max_vendor_id`.
pub open spec fn chart(cs: ConsentString) -> Seq<Seq<char>> {
    chart_upto(cs, cs.max_vendor_id / 100 + 1)
}

fn digit_char(d: u8) -> (r: char)
    requires
        d < 10,
    ensures
        r == digit(d as int),
{
    (48 + d) as char
}

fn header_line(units: bool) -> (r: String)
    ensures
        r@ == if units {
            header_units()
        } else {
            header_tens()
        },
{
    let ghost want = if units {
        header_units()
    } else {
        header_tens()
    };
    let mut s = String::new();
    let mut i: usize = 0;
    while i < 113
        invariant
            i <= 113,
            want == if units {
                header_units()
            } else {
                header_tens()
            },
            s@ == want.subrange(0, i as int),
        decreases 113 - i,
    {
        let c = if i < 3 || (i - 3) % 11 == 0 {
            ' '
        } else if units {
            digit_char(((i - 3) % 11 - 1) as u8)
        } else {
            digit_char(((i - 3) / 11) as u8)
        };
        push_char(&mut s, c);
        i = i + 1;
        proof {
            assert(s@ =~= want.subrange(0, i as int));
        }
    }
    proof {
        assert(s@ =~= want);
    }
    s
}

fn chart_row(gdpr: &ConsentString, row: usize) -> (r: String)
    requires
        row < 1000,
        100 * row <= gdpr.max_vendor_id,
    ensures
        r@ == row_line(*gdpr, row as int),
{
    let mut s = String::new();
    push_char(&mut s, if row >= 100 { digit_char((row / 100) as u8) } else { ' ' });
    push_char(&mut s, if row >= 10 { digit_char(((row / 10) % 10) as u8) } else { ' ' });
    push_char(&mut s, digit_char((row % 10) as u8));
    proof {
        assert(s@ =~= row_label(row as int));
    }
    let max = gdpr.max_vendor_id as usize;
    let end: usize = if 100 * (row + 1) < max + 1 {
        100 * (row + 1)
    } else {
        max + 1
    };
    let start: usize = 100 * row;
    let mut vid: usize = start;
    proof {
        assert(cells(*gdpr, start as int, start as int) =~= Seq::<char>::empty());
        assert(s@ =~= row_label(row as int) + cells(*gdpr, start as int, start as int));
    }
    while vid < end
        invariant
            start <= vid <= end <= 65536,
            s@ == row_label(row as int) + cells(*gdpr, start as int, vid as int),
        decreases end - vid,
    {
        let granted = vid >= 1 && vid < gdpr.vendor_consents.len() && gdpr.vendor_consents[vid];
        let mark = if granted {
            '#'
        } else {
            ' '
        };
        if vid % 10 == 0 {
            push_char(&mut s, ' ');
        }
        push_char(&mut s, mark);
        vid = vid + 1;
        proof {
            assert(s@ =~= row_label(row as int) + cells(*gdpr, start as int, vid as int));
        }
    }
    s
}

/// The vendor consents as text lines: one row for each hundred vendor IDs, `#` for a granted
/// vendor and a space otherwise, with two header lines of column digits before every tenth row.
pub fn vendor_chart(gdpr: &ConsentString) -> (r: Vec<String>)
    ensures
        r@.len() == chart(*gdpr).len(),
        forall|k: int| 0 <= k < r@.len() ==> #[trigger] r@[k]@ == chart(*gdpr)[k],
{
    let rows: usize = gdpr.max_vendor_id as usize / 100 + 1;
    let mut lines: Vec<String> = Vec::new();
    let mut row: usize = 0;
    while row < rows
        invariant
            row <= rows,
            rows == gdpr.max_vendor_id / 100 + 1,
            lines@.len() == chart_upto(*gdpr, row as int).len(),
            forall|k: int|
                0 <= k < lines@.len() ==> #[trigger] lines@[k]@ == chart_upto(*gdpr, row as int)[k],
        decreases rows - row,
    {
        let ghost before = lines@;
        if row % 10 == 0 {
            lines.push(header_line(false));
            lines.push(header_line(true));
        }
        lines.push(chart_row(gdpr, row));
        proof {
            let prev = chart_upto(*gdpr, row as int);
            assert(chart_upto(*gdpr, row + 1) == prev + chart_block(*gdpr, row as int));
            assert forall|k: int| 0 <= k < lines@.len() implies #[trigger] lines@[k]@ == chart_upto(
                *gdpr,
                row + 1,
            )[k] by {
                if k < before.len() {
                    assert(lines@[k] == before[k]);
                }
            }
        }
        row = row + 1;
    }
    lines
}

} // verus!
