//! Screen geometry: where the login box goes.
use ratatui::layout::{Constraint, Direction, Layout, Rect};
use vstd::prelude::*;

verus! {

/// A rectangle of terminal cells.
#[derive(Clone, Copy, Debug, PartialEq, Eq, Structural)]
pub struct Area {
    pub x: u16,
    pub y: u16,
    pub width: u16,
    pub height: u16,
}

impl Area {
    /// The rectangle as a tuple `(x, y, width, height)`.
    pub open spec fn tuple(self) -> (u16, u16, u16, u16) {
        (self.x, self.y, self.width, self.height)
    }
}

/// Where `area` starts along the axis of a cut (rows where `vertical`,
/// columns otherwise), and how far it reaches: its far edge is
/// `start + extent`, held at 65535 as `Rect::right` and `Rect::bottom` hold
/// it.
pub open spec fn span(area: (u16, u16, u16, u16), vertical: bool) -> (int, int) {
    let start: int = if vertical { area.1 as int } else { area.0 as int };
    let extent: int = if vertical { area.3 as int } else { area.2 as int };
    let end: int = if start + extent > 0xFFFF { 0xFFFF } else { start + extent };
    (start, end - start)
}

/// The sum of the first `i` of three percentages.
pub open spec fn percent_before(percents: Seq<u16>, i: int) -> int {
    if i <= 0 {
        0
    } else if i == 1 {
        percents[0] as int
    } else if i == 2 {
        percents[0] + percents[1]
    } else {
        percents[0] + percents[1] + percents[2]
    }
}

/// The cell at which the cut after `percent` percent of an extent `len` from
/// `start` falls: `start + len * percent / 100`, rounded to the nearest cell
/// (halves up).
pub open spec fn cut_at(start: int, len: int, percent: int) -> int {
    (100 * start + len * percent + 50) / 100
}

/// Part `i` of `area` cut along one axis into three parts of the given
/// percentages: from the cut before it to the cut after it along the axis,
/// the whole of `area` across it.
pub open spec fn split_part(
    vertical: bool,
    percents: Seq<u16>,
    area: (u16, u16, u16, u16),
    i: int,
) -> (u16, u16, u16, u16) {
    let (start, len) = span(area, vertical);
    let a = cut_at(start, len, percent_before(percents, i));
    let b = cut_at(start, len, percent_before(percents, i + 1));
    if vertical {
        (area.0, a as u16, area.2, (b - a) as u16)
    } else {
        (a as u16, area.1, (b - a) as u16, area.3)
    }
}

/// `part` lies inside `area` and spans it across the axis of the cut:
/// along a vertical cut it keeps the columns of `area` and takes rows within
/// it, along a horizontal cut the other way round.
pub open spec fn lies_within(
    part: (u16, u16, u16, u16),
    area: (u16, u16, u16, u16),
    vertical: bool,
) -> bool {
    if vertical {
        &&& part.0 == area.0
        &&& part.2 == area.2
        &&& area.1 <= part.1
        &&& part.1 + part.3 <= area.1 + area.3
    } else {
        &&& part.1 == area.1
        &&& part.3 == area.3
        &&& area.0 <= part.0
        &&& part.0 + part.2 <= area.0 + area.2
    }
}

/// Calls `ratatui`'s `Layout::split` on a layout along one axis with one
/// `Constraint::Percentage` per entry of `percents`, no margin and the
/// default `Flex::Start`. The call is limited to three percentages that add
/// up to at most 100 (for other constraint sets the source warns of
/// indeterminate results). Then every constraint can be met exactly: the
/// solver works in hundredths of a cell, the first spacer and the spacers
/// between parts are held empty, and part `i` is `len * percent / 100` cells
/// long, where `len` is the area's extent along the axis. Its ends are the
/// cuts at the running sums of the percentages, each rounded to the nearest
/// cell on its own; across the axis each part keeps the area's position
/// and size.
#[verifier::external_body]
fn split_area(vertical: bool, percents: Vec<u16>, area: (u16, u16, u16, u16)) -> (r: Vec<
    (u16, u16, u16, u16),
>)
    requires
        percents@.len() == 3,
        percents@[0] + percents@[1] + percents@[2] <= 100,
    ensures
        r@.len() == 3,
        forall|i: int| 0 <= i < 3 ==> #[trigger] r@[i] == split_part(vertical, percents@, area, i),
{
    let direction = if vertical { Direction::Vertical } else { Direction::Horizontal };
    let rect = Rect { x: area.0, y: area.1, width: area.2, height: area.3 };
    let parts = Layout::default().direction(direction).constraints(
        percents.into_iter().map(Constraint::Percentage),
    ).split(rect);
    parts.iter().map(|p| (p.x, p.y, p.width, p.height)).collect()
}

/// Each of three parts of percentages adding up to at most 100 lies within
/// the area it was cut from.
pub proof fn lemma_split_part_within(
    vertical: bool,
    percents: Seq<u16>,
    area: (u16, u16, u16, u16),
    i: int,
)
    requires
        percents.len() == 3,
        percents[0] + percents[1] + percents[2] <= 100,
        0 <= i < 3,
    ensures
        lies_within(split_part(vertical, percents, area, i), area, vertical),
{
    let (start, len) = span(area, vertical);
    let c1 = percent_before(percents, i);
    let c2 = percent_before(percents, i + 1);
    assert(0 <= c1 <= c2 <= 100);
    assert(0 <= len);
    assert(0 <= len * c1 <= len * c2 <= len * 100) by (nonlinear_arith)
        requires
            0 <= c1 <= c2 <= 100,
            0 <= len,
    ;
    let a = cut_at(start, len, c1);
    let b = cut_at(start, len, c2);
    assert(start <= a <= b <= start + len) by {
        vstd::arithmetic::div_mod::lemma_div_is_ordered(
            100 * start + len * c1 + 50,
            100 * start + len * c2 + 50,
            100,
        );
        vstd::arithmetic::div_mod::lemma_div_is_ordered(
            100 * start + 50,
            100 * start + len * c1 + 50,
            100,
        );
        vstd::arithmetic::div_mod::lemma_div_is_ordered(
            100 * start + len * c2 + 50,
            100 * (start + len) + 50,
            100,
        );
        assert((100 * start + 50) / 100 == start);
        assert((100 * (start + len) + 50) / 100 == start + len);
    }
}

/// The three percentages that put a part of `p` percent in the middle.
pub open spec fn middle_thirds(p: u16) -> Seq<u16> {
    let side = ((100 - p) / 2) as u16;
    seq![side, p, side]
}

/// The rectangle of `percent_x` by `percent_y` percent in the middle of `r`:
/// the middle of three rows, then the middle of three columns of that.
pub fn centered_rect(percent_x: u16, percent_y: u16, r: Area) -> (c: Area)
    requires
        percent_x <= 100,
        percent_y <= 100,
    ensures
        c.tuple() == split_part(
            false,
            middle_thirds(percent_x),
            split_part(true, middle_thirds(percent_y), r.tuple(), 1),
            1,
        ),
        r.x <= c.x,
        c.x + c.width <= r.x + r.width,
        r.y <= c.y,
        c.y + c.height <= r.y + r.height,
{
    let side_y = (100 - percent_y) / 2;
    let rows = split_area(true, vec![side_y, percent_y, side_y], (r.x, r.y, r.width, r.height));
    proof {
        assert(seq![side_y, percent_y, side_y] =~= middle_thirds(percent_y));
    }
    let side_x = (100 - percent_x) / 2;
    let cols = split_area(false, vec![side_x, percent_x, side_x], rows[1]);
    proof {
        assert(seq![side_x, percent_x, side_x] =~= middle_thirds(percent_x));
    }
    let (x, y, width, height) = cols[1];
    proof {
        lemma_split_part_within(true, middle_thirds(percent_y), r.tuple(), 1);
        lemma_split_part_within(false, middle_thirds(percent_x), rows@[1], 1);
        assert(lies_within(rows@[1], r.tuple(), true));
        assert(lies_within(cols@[1], rows@[1], false));
    }
    Area { x, y, width, height }
}

} // verus!
