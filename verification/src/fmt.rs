//! Verified text for the layout reports.
//!
//! The overlay manager logs one line per refresh and can describe the
//! current layout on demand.  The text is assembled here, down to the
//! decimal digits, so the description provably matches the rectangles it
//! reports.

use vstd::prelude::*;
use vstd::string::StringExecFns;
use vstd::string::StrSliceExecFns;
use crate::monitor::MonitorRect;

verus! {

/// The character of one decimal digit.
pub open spec fn digit_char(d: nat) -> char {
    if d == 0 {
        '0'
    } else if d == 1 {
        '1'
    } else if d == 2 {
        '2'
    } else if d == 3 {
        '3'
    } else if d == 4 {
        '4'
    } else if d == 5 {
        '5'
    } else if d == 6 {
        '6'
    } else if d == 7 {
        '7'
    } else if d == 8 {
        '8'
    } else {
        '9'
    }
}

/// The decimal digits of a natural number, most significant first, with no
/// leading zero except for the number zero itself.
pub open spec fn decimal_digits(n: nat) -> Seq<char>
    decreases n,
{
    if n < 10 {
        seq![digit_char(n)]
    } else {
        decimal_digits(n / 10).push(digit_char(n % 10))
    }
}

/// The decimal notation of an integer: a minus sign before the digits of
/// the magnitude when it is negative.
pub open spec fn decimal_repr(n: int) -> Seq<char> {
    if n < 0 {
        seq!['-'] + decimal_digits((-n) as nat)
    } else {
        decimal_digits(n as nat)
    }
}

/// One decimal digit as text.
fn digit_str(d: u64) -> (s: &'static str)
    requires
        d < 10,
    ensures
        s@ == seq![digit_char(d as nat)],
{
    proof {
        reveal_strlit("0");
        reveal_strlit("1");
        reveal_strlit("2");
        reveal_strlit("3");
        reveal_strlit("4");
        reveal_strlit("5");
        reveal_strlit("6");
        reveal_strlit("7");
        reveal_strlit("8");
        reveal_strlit("9");
    }
    let s = match d {
        0 => "0",
        1 => "1",
        2 => "2",
        3 => "3",
        4 => "4",
        5 => "5",
        6 => "6",
        7 => "7",
        8 => "8",
        _ => "9",
    };
    proof {
        assert(s@ =~= seq![digit_char(d as nat)]);
    }
    s
}

/// The decimal notation of `n`.
pub fn format_u64(n: u64) -> (s: String)
    ensures
        s@ == decimal_digits(n as nat),
    decreases n,
{
    if n < 10 {
        String::from_str(digit_str(n))
    } else {
        let mut s = format_u64(n / 10);
        s.append(digit_str(n % 10));
        proof {
            assert(s@ =~= decimal_digits((n / 10) as nat).push(digit_char((n % 10) as nat)));
        }
        s
    }
}

/// The decimal notation of `n`, sign included.
pub fn format_i64(n: i64) -> (s: String)
    ensures
        s@ == decimal_repr(n as int),
{
    if n >= 0 {
        format_u64(n as u64)
    } else {
        let magnitude: u64 = (-(n as i128)) as u64;
        proof {
            assert(magnitude == -(n as int));
        }
        let mut s = String::from_str("-");
        let digits = format_u64(magnitude);
        s.append(digits.as_str());
        proof {
            reveal_strlit("-");
            assert(s@ =~= decimal_repr(n as int));
        }
        s
    }
}

/// The decimal notation of `n`, sign included.
pub fn format_i32(n: i32) -> (s: String)
    ensures
        s@ == decimal_repr(n as int),
{
    format_i64(n as i64)
}

/// What one display's line in the layout report says: position, size and
/// scaling of the display at `index`.
pub open spec fn layout_entry_text(index: int, r: MonitorRect) -> Seq<char> {
    "display "@ + decimal_repr(index) + ": origin=("@ + decimal_repr(r.x as int) + ", "@
        + decimal_repr(r.y as int) + "), size="@ + decimal_repr(r.width as int) + "x"@
        + decimal_repr(r.height as int) + ", dpi="@ + decimal_repr(r.dpi as int)
}

/// The layout report: one line per display, joined by semicolons.
pub open spec fn layout_description_spec(rects: Seq<MonitorRect>) -> Seq<char>
    decreases rects.len(),
{
    if rects.len() == 0 {
        Seq::<char>::empty()
    } else if rects.len() == 1 {
        layout_entry_text(0, rects[0])
    } else {
        layout_description_spec(rects.drop_last()) + "; "@
            + layout_entry_text(rects.len() - 1, rects.last())
    }
}

/// Appends the text of the display at `index` to `out`.
fn push_layout_entry(out: &mut String, index: usize, r: MonitorRect)
    ensures
        final(out)@ == old(out)@ + layout_entry_text(index as int, r),
{
    out.append("display ");
    let index_text = format_u64(index as u64);
    out.append(index_text.as_str());
    out.append(": origin=(");
    let x_text = format_i32(r.x);
    out.append(x_text.as_str());
    out.append(", ");
    let y_text = format_i32(r.y);
    out.append(y_text.as_str());
    out.append("), size=");
    let width_text = format_i32(r.width);
    out.append(width_text.as_str());
    out.append("x");
    let height_text = format_i32(r.height);
    out.append(height_text.as_str());
    out.append(", dpi=");
    let dpi_text = format_u64(r.dpi as u64);
    out.append(dpi_text.as_str());
    proof {
        assert(final(out)@ =~= old(out)@ + layout_entry_text(index as int, r));
    }
}

/// Describes the committed layout, display by display, as
/// [`layout_description_spec`] says.
pub fn layout_description(rects: &Vec<MonitorRect>) -> (s: String)
    ensures
        s@ == layout_description_spec(rects@),
{
    let mut s = String::new();
    let mut i: usize = 0;
    while i < rects.len()
        invariant
            i <= rects@.len(),
            s@ == layout_description_spec(rects@.take(i as int)),
        decreases rects.len() - i,
    {
        let ghost before = s@;
        if i > 0 {
            s.append("; ");
        }
        push_layout_entry(&mut s, i, rects[i]);
        proof {
            assert(rects@.take(i as int + 1).drop_last() =~= rects@.take(i as int));
            assert(rects@.take(i as int + 1).last() == rects@[i as int]);
            if i == 0 {
                assert(s@ =~= layout_description_spec(rects@.take(1)));
            } else {
                assert(s@ =~= before + "; "@ + layout_entry_text(i as int, rects@[i as int]));
                assert(s@ =~= layout_description_spec(rects@.take(i as int + 1)));
            }
        }
        i = i + 1;
    }
    proof {
        assert(rects@.take(rects@.len() as int) =~= rects@);
    }
    s
}

/// What one display's cell in the refresh summary says: size, position and
/// scaling, bracketed.
pub open spec fn refresh_cell_text(r: MonitorRect) -> Seq<char> {
    "["@ + decimal_repr(r.width as int) + "x"@ + decimal_repr(r.height as int) + " @ ("@
        + decimal_repr(r.x as int) + ", "@ + decimal_repr(r.y as int) + ") dpi "@
        + decimal_repr(r.dpi as int) + "]"@
}

/// The cells of the refresh summary, joined by commas.
pub open spec fn refresh_cells_spec(rects: Seq<MonitorRect>) -> Seq<char>
    decreases rects.len(),
{
    if rects.len() == 0 {
        Seq::<char>::empty()
    } else if rects.len() == 1 {
        refresh_cell_text(rects[0])
    } else {
        refresh_cells_spec(rects.drop_last()) + ", "@ + refresh_cell_text(rects.last())
    }
}

/// The line logged after a refresh: how many displays there are, and each
/// one's cell.
pub open spec fn refresh_summary_spec(rects: Seq<MonitorRect>) -> Seq<char> {
    "Overlay refresh => "@ + decimal_repr(rects.len() as int) + " displays: "@
        + refresh_cells_spec(rects)
}

/// Appends the refresh cell of one display to `out`.
fn push_refresh_cell(out: &mut String, r: MonitorRect)
    ensures
        final(out)@ == old(out)@ + refresh_cell_text(r),
{
    out.append("[");
    let width_text = format_i32(r.width);
    out.append(width_text.as_str());
    out.append("x");
    let height_text = format_i32(r.height);
    out.append(height_text.as_str());
    out.append(" @ (");
    let x_text = format_i32(r.x);
    out.append(x_text.as_str());
    out.append(", ");
    let y_text = format_i32(r.y);
    out.append(y_text.as_str());
    out.append(") dpi ");
    let dpi_text = format_u64(r.dpi as u64);
    out.append(dpi_text.as_str());
    out.append("]");
    proof {
        assert(final(out)@ =~= old(out)@ + refresh_cell_text(r));
    }
}

/// The line to log after a refresh, as [`refresh_summary_spec`] says.
pub fn refresh_summary(rects: &Vec<MonitorRect>) -> (s: String)
    ensures
        s@ == refresh_summary_spec(rects@),
{
    let mut s = String::from_str("Overlay refresh => ");
    let count_text = format_u64(rects.len() as u64);
    s.append(count_text.as_str());
    s.append(" displays: ");
    let ghost header = s@;
    let mut i: usize = 0;
    while i < rects.len()
        invariant
            i <= rects@.len(),
            header == "Overlay refresh => "@ + decimal_repr(rects@.len() as int)
                + " displays: "@,
            s@ == header + refresh_cells_spec(rects@.take(i as int)),
        decreases rects.len() - i,
    {
        let ghost before = s@;
        if i > 0 {
            s.append(", ");
        }
        push_refresh_cell(&mut s, rects[i]);
        proof {
            assert(rects@.take(i as int + 1).drop_last() =~= rects@.take(i as int));
            assert(rects@.take(i as int + 1).last() == rects@[i as int]);
            if i == 0 {
                assert(s@ =~= header + refresh_cells_spec(rects@.take(1)));
            } else {
                assert(s@ =~= header + refresh_cells_spec(rects@.take(i as int))
                    + ", "@ + refresh_cell_text(rects@[i as int]));
                assert(s@ =~= header + refresh_cells_spec(rects@.take(i as int + 1)));
            }
        }
        i = i + 1;
    }
    proof {
        assert(rects@.take(rects@.len() as int) =~= rects@);
        assert(s@ =~= refresh_summary_spec(rects@));
    }
    s
}

} // verus!
