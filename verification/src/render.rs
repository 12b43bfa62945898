//! What a frame contains, computed as plain values: the border cells of the
//! surrounding rectangle, the header labels, and one text row per visible
//! entry with the receipt time formatted as hours:minutes:seconds.millis.
//! Drawing the cells on a terminal is left to the caller.
use vstd::prelude::*;

use crate::layout::Layout;
use crate::layout::Size;
use crate::table::entry_views;
use crate::table::EntryList;
use crate::table::EntryView;

verus! {

pub const MS_PER_DAY: u64 = 86_400_000;

pub const MS_PER_HOUR: u64 = 3_600_000;

pub const MS_PER_MINUTE: u64 = 60_000;

pub const MS_PER_SECOND: u64 = 1_000;

/// The character for one decimal digit.
pub open spec fn digit_char(d: int) -> char {
    ((48 + d) as u32) as char
}

pub open spec fn two_digits(n: int) -> Seq<char> {
    seq![digit_char(n / 10), digit_char(n % 10)]
}

pub open spec fn three_digits(n: int) -> Seq<char> {
    seq![digit_char(n / 100), digit_char((n / 10) % 10), digit_char(n % 10)]
}

/// Decimal digits of `n`, most significant first, no leading zeros.
pub open spec fn dec_digits(n: int) -> Seq<char>
    decreases n,
{
    if n < 10 {
        seq![digit_char(n)]
    } else {
        dec_digits(n / 10).push(digit_char(n % 10))
    }
}

/// The clock text for a timestamp of `t` milliseconds: the time of day it
/// falls on, as two-digit hours, minutes and seconds and three-digit
/// milliseconds.
pub open spec fn time_text(t: int) -> Seq<char> {
    let ms = t % (86_400_000int);
    two_digits(ms / 3_600_000) + seq![':'] + two_digits((ms / 60_000) % 60) + seq![':']
        + two_digits((ms / 1_000) % 60) + seq!['.'] + three_digits(ms % 1_000)
}

fn digit_str(d: u64) -> (r: &'static str)
    requires
        d < 10,
    ensures
        r@ == seq![digit_char(d as int)],
{
    let r: &'static str = match d {
        0 => "0",
        1 => "1",
        2 => "2",
        3 => "3",
        4 => "4",
        5 => "5",
        6 => "6",
        7 => "7",
        8 => "8",
        _ => "9",
    };
    proof {
        reveal_strlit("0");
        reveal_strlit("1");
        reveal_strlit("2");
        reveal_strlit("3");
        reveal_strlit("4");
        reveal_strlit("5");
        reveal_strlit("6");
        reveal_strlit("7");
        reveal_strlit("8");
        reveal_strlit("9");
        assert(r@ =~= seq![digit_char(d as int)]);
    }
    r
}

/// The decimal text of `n`, digit by digit.
pub fn format_u64(n: u64) -> (r: String)
    ensures
        r@ == dec_digits(n as int),
    decreases n,
{
    if n < 10 {
        let r = String::from_str(digit_str(n));
        r
    } else {
        let mut s = format_u64(n / 10);
        s.append(digit_str(n % 10));
        proof {
            assert(s@ =~= dec_digits(n as int));
        }
        s
    }
}

/// The clock text of a timestamp, exactly `time_text`.
pub fn format_time(t: u64) -> (r: String)
    ensures
        r@ == time_text(t as int),
{
    let ms = t % MS_PER_DAY;
    let h = ms / MS_PER_HOUR;
    let mi = (ms / MS_PER_MINUTE) % 60;
    let se = (ms / MS_PER_SECOND) % 60;
    let mil = ms % MS_PER_SECOND;
    proof {
        assert(h < 24) by (nonlinear_arith)
            requires
                ms < 86_400_000,
                h == ms / 3_600_000,
        ;
    }
    let mut s = String::new();
    s.append(digit_str(h / 10));
    s.append(digit_str(h % 10));
    s.append(":");
    s.append(digit_str(mi / 10));
    s.append(digit_str(mi % 10));
    s.append(":");
    s.append(digit_str(se / 10));
    s.append(digit_str(se % 10));
    s.append(".");
    s.append(digit_str(mil / 100));
    s.append(digit_str((mil / 10) % 10));
    s.append(digit_str(mil % 10));
    proof {
        reveal_strlit(":");
        reveal_strlit(".");
        assert(s@ =~= time_text(t as int));
    }
    s
}

/// One displayed row of the table: the row coordinate and the four column
/// texts; the column start positions come from the layout.
pub struct RowText {
    pub row: i32,
    pub topic: String,
    pub value: String,
    pub time: String,
    pub count: String,
}

/// How many entries fit under the row capacity: all of them, clipped to the
/// capacity, and none on a degenerate (non-positive) capacity.
pub open spec fn spec_visible(len: int, rows: int) -> int {
    let cap = if rows >= 0 {
        rows
    } else {
        0
    };
    if len <= cap {
        len
    } else {
        cap
    }
}

/// What the row for entry `e`, displayed `r` rows below the header, holds.
pub open spec fn row_text_ok(c: RowText, r: int, e: EntryView) -> bool {
    &&& c.row == 2 + r
    &&& c.topic@ == e.topic
    &&& c.value@ == e.value
    &&& c.time@ == time_text(e.time)
    &&& c.count@ == dec_digits(e.count)
}

/// The text rows of a frame: one per entry in table order, clipped to the
/// layout's row capacity, starting directly under the header row.
pub fn render_rows(list: &EntryList, layout: &Layout) -> (out: Vec<RowText>)
    requires
        layout.rows < i32::MAX,
    ensures
        out@.len() == spec_visible(list@.len() as int, layout.rows as int),
        forall|r: int| 0 <= r < out@.len() ==> row_text_ok(#[trigger] out@[r], r, list@[r]),
{
    let cap: usize = if layout.rows >= 0 {
        layout.rows as usize
    } else {
        0
    };
    let n = list.entries.len();
    let visible: usize = if n <= cap {
        n
    } else {
        cap
    };
    let mut out: Vec<RowText> = Vec::new();
    let mut i: usize = 0;
    while i < visible
        invariant
            i <= visible,
            visible == spec_visible(list@.len() as int, layout.rows as int),
            visible <= list.entries@.len(),
            layout.rows >= 0 ==> visible <= layout.rows,
            layout.rows < 0 ==> visible == 0,
            layout.rows < i32::MAX,
            out@.len() == i,
            forall|r: int| 0 <= r < i ==> row_text_ok(#[trigger] out@[r], r, list@[r]),
        decreases visible - i,
    {
        let e = &list.entries[i];
        proof {
            assert(entry_views(list.entries@)[i as int] == list.entries@[i as int]@);
        }
        let row = RowText {
            row: 2 + (i as i32),
            topic: e.topic.clone(),
            value: e.value.clone(),
            time: format_time(e.time),
            count: format_u64(e.count),
        };
        out.push(row);
        i = i + 1;
    }
    out
}

/// The four header labels, in column order; all are drawn on row 1, each at
/// its column's start, in bold.
pub fn header_labels() -> (out: (&'static str, &'static str, &'static str, &'static str))
    ensures
        out.0@ == "Topic"@,
        out.1@ == "Value"@,
        out.2@ == "Time"@,
        out.3@ == "Count"@,
{
    ("Topic", "Value", "Time", "Count")
}

/// The pieces of the border rectangle.
#[derive(Copy, Clone, PartialEq, Eq, Structural, Debug)]
pub enum BorderPart {
    Horizontal,
    Vertical,
    TopLeft,
    TopRight,
    BottomLeft,
    BottomRight,
}

#[derive(Copy, Clone, PartialEq, Eq, Structural, Debug)]
pub struct BorderCell {
    pub row: i32,
    pub col: i32,
    pub part: BorderPart,
}

/// Length of one border edge: one less than the extent, and empty when the
/// extent is degenerate.
pub open spec fn spec_edge(n: int) -> int {
    if n >= 1 {
        n - 1
    } else {
        0
    }
}

/// The border rectangle of a frame: the top and bottom horizontal edges, the
/// left and right vertical edges, then the four corners. On degenerate
/// dimensions the edges are empty and only the corners remain, possibly at
/// negative coordinates the caller must ignore, as a terminal does.
pub fn border_cells(size: Size) -> (out: Vec<BorderCell>)
    requires
        size.width > i32::MIN,
        size.height > i32::MIN,
    ensures
        ({
            let w = size.width as int;
            let h = size.height as int;
            let hn = spec_edge(w);
            let vn = spec_edge(h);
            &&& out@.len() == 2 * hn + 2 * vn + 4
            &&& forall|q: int|
                0 <= q < hn ==> out@[q] == (BorderCell {
                    row: 0,
                    col: q as i32,
                    part: BorderPart::Horizontal,
                })
            &&& forall|q: int|
                hn <= q < 2 * hn ==> out@[q] == (BorderCell {
                    row: (h - 1) as i32,
                    col: (q - hn) as i32,
                    part: BorderPart::Horizontal,
                })
            &&& forall|q: int|
                2 * hn <= q < 2 * hn + vn ==> out@[q] == (BorderCell {
                    row: (q - 2 * hn) as i32,
                    col: 0,
                    part: BorderPart::Vertical,
                })
            &&& forall|q: int|
                2 * hn + vn <= q < 2 * hn + 2 * vn ==> out@[q] == (BorderCell {
                    row: (q - 2 * hn - vn) as i32,
                    col: (w - 1) as i32,
                    part: BorderPart::Vertical,
                })
            &&& out@[2 * hn + 2 * vn] == (BorderCell {
                row: 0,
                col: 0,
                part: BorderPart::TopLeft,
            })
            &&& out@[2 * hn + 2 * vn + 1] == (BorderCell {
                row: 0,
                col: (w - 1) as i32,
                part: BorderPart::TopRight,
            })
            &&& out@[2 * hn + 2 * vn + 2] == (BorderCell {
                row: (h - 1) as i32,
                col: 0,
                part: BorderPart::BottomLeft,
            })
            &&& out@[2 * hn + 2 * vn + 3] == (BorderCell {
                row: (h - 1) as i32,
                col: (w - 1) as i32,
                part: BorderPart::BottomRight,
            })
        }),
{
    let w = size.width;
    let h = size.height;
    let hn: i32 = if w >= 1 {
        w - 1
    } else {
        0
    };
    let vn: i32 = if h >= 1 {
        h - 1
    } else {
        0
    };
    let mut out: Vec<BorderCell> = Vec::new();
    let mut i: i32 = 0;
    while i < hn
        invariant
            0 <= i <= hn,
            hn == spec_edge(w as int),
            out@.len() == i,
            forall|q: int|
                0 <= q < i ==> out@[q] == (BorderCell {
                    row: 0,
                    col: q as i32,
                    part: BorderPart::Horizontal,
                }),
        decreases hn - i,
    {
        out.push(BorderCell { row: 0, col: i, part: BorderPart::Horizontal });
        i = i + 1;
    }
    let mut i: i32 = 0;
    while i < hn
        invariant
            0 <= i <= hn,
            hn == spec_edge(w as int),
            h > i32::MIN,
            out@.len() == hn + i,
            forall|q: int|
                0 <= q < hn ==> out@[q] == (BorderCell {
                    row: 0,
                    col: q as i32,
                    part: BorderPart::Horizontal,
                }),
            forall|q: int|
                hn <= q < hn + i ==> out@[q] == (BorderCell {
                    row: (h - 1) as i32,
                    col: (q - hn) as i32,
                    part: BorderPart::Horizontal,
                }),
        decreases hn - i,
    {
        out.push(BorderCell { row: h - 1, col: i, part: BorderPart::Horizontal });
        i = i + 1;
    }
    let mut i: i32 = 0;
    while i < vn
        invariant
            0 <= i <= vn,
            hn == spec_edge(w as int),
            vn == spec_edge(h as int),
            out@.len() == 2 * hn + i,
            forall|q: int|
                0 <= q < hn ==> out@[q] == (BorderCell {
                    row: 0,
                    col: q as i32,
                    part: BorderPart::Horizontal,
                }),
            forall|q: int|
                hn <= q < 2 * hn ==> out@[q] == (BorderCell {
                    row: (h as int - 1) as i32,
                    col: (q - hn) as i32,
                    part: BorderPart::Horizontal,
                }),
            forall|q: int|
                2 * hn <= q < 2 * hn + i ==> out@[q] == (BorderCell {
                    row: (q - 2 * hn) as i32,
                    col: 0,
                    part: BorderPart::Vertical,
                }),
        decreases vn - i,
    {
        out.push(BorderCell { row: i, col: 0, part: BorderPart::Vertical });
        i = i + 1;
    }
    let mut i: i32 = 0;
    while i < vn
        invariant
            0 <= i <= vn,
            hn == spec_edge(w as int),
            vn == spec_edge(h as int),
            w > i32::MIN,
            h > i32::MIN,
            out@.len() == 2 * hn + vn + i,
            forall|q: int|
                0 <= q < hn ==> out@[q] == (BorderCell {
                    row: 0,
                    col: q as i32,
                    part: BorderPart::Horizontal,
                }),
            forall|q: int|
                hn <= q < 2 * hn ==> out@[q] == (BorderCell {
                    row: (h as int - 1) as i32,
                    col: (q - hn) as i32,
                    part: BorderPart::Horizontal,
                }),
            forall|q: int|
                2 * hn <= q < 2 * hn + vn ==> out@[q] == (BorderCell {
                    row: (q - 2 * hn) as i32,
                    col: 0,
                    part: BorderPart::Vertical,
                }),
            forall|q: int|
                2 * hn + vn <= q < 2 * hn + vn + i ==> out@[q] == (BorderCell {
                    row: (q - 2 * hn - vn) as i32,
                    col: (w as int - 1) as i32,
                    part: BorderPart::Vertical,
                }),
        decreases vn - i,
    {
        out.push(BorderCell { row: i, col: w - 1, part: BorderPart::Vertical });
        i = i + 1;
    }
    out.push(BorderCell { row: 0, col: 0, part: BorderPart::TopLeft });
    out.push(BorderCell { row: 0, col: w - 1, part: BorderPart::TopRight });
    out.push(BorderCell { row: h - 1, col: 0, part: BorderPart::BottomLeft });
    out.push(BorderCell { row: h - 1, col: w - 1, part: BorderPart::BottomRight });
    out
}

} // verus!
