//! Rectangles on the screen and how they are divided.

use ratatui::layout::{Constraint, Direction, Layout};
use ratatui::widgets::{Block, Borders};
use vstd::prelude::*;

verus! {

/// An area of the screen, in cells.
#[derive(Clone, Copy, Debug, PartialEq, Eq, Structural)]
pub struct Rect {
    /// The column of the left edge.
    pub x: u16,
    /// The row of the upper edge.
    pub y: u16,
    /// How many columns the area has.
    pub width: u16,
    /// How many rows the area has.
    pub height: u16,
}

impl Rect {
    /// The edges of the area have coordinates.
    pub open spec fn wf(self) -> bool {
        self.x + self.width <= u16::MAX && self.y + self.height <= u16::MAX
    }

    /// Whether `other` lies in this area.
    pub open spec fn contains(self, other: Rect) -> bool {
        &&& self.x <= other.x
        &&& self.y <= other.y
        &&& other.x + other.width <= self.x + self.width
        &&& other.y + other.height <= self.y + self.height
    }

    /// Whether the two areas have no cell in common.
    pub open spec fn apart(self, other: Rect) -> bool {
        ||| self.x + self.width <= other.x
        ||| other.x + other.width <= self.x
        ||| self.y + self.height <= other.y
        ||| other.y + other.height <= self.y
    }

    /// The area inside a border on all four sides.
    pub open spec fn inside_border(self) -> Rect {
        Rect {
            x: if self.width == 0 {
                self.x
            } else {
                (self.x + 1) as u16
            },
            y: if self.height == 0 {
                self.y
            } else {
                (self.y + 1) as u16
            },
            width: if self.width < 2 {
                0
            } else {
                (self.width - 2) as u16
            },
            height: if self.height < 2 {
                0
            } else {
                (self.height - 2) as u16
            },
        }
    }
}

/// What a part of a divided area is to get.
#[derive(Clone, Copy, Debug, PartialEq, Eq, Structural)]
pub enum Share {
    /// So many cells.
    Length(u16),
    /// So many cells, and whatever the other parts leave.
    Least(u16),
    /// So many hundredths of the area.
    Percent(u16),
}

/// Which way an area is divided.
#[derive(Clone, Copy, Debug, PartialEq, Eq, Structural)]
pub enum Axis {
    /// From top to bottom.
    Vertical,
    /// From left to right.
    Horizontal,
}

/// The cells that the shares ask for.
pub open spec fn cells(shares: Seq<Share>) -> int
    decreases shares.len(),
{
    if shares.len() == 0 {
        0
    } else {
        cells(shares.drop_last()) + match shares.last() {
            Share::Length(n) => n as int,
            Share::Least(n) => n as int,
            Share::Percent(_) => 0,
        }
    }
}

/// The hundredths that the shares ask for.
pub open spec fn hundredths(shares: Seq<Share>) -> int
    decreases shares.len(),
{
    if shares.len() == 0 {
        0
    } else {
        hundredths(shares.drop_last()) + match shares.last() {
            Share::Percent(p) => p as int,
            _ => 0,
        }
    }
}

/// Whether the shares are at most three: lengths around the one share at place `k` that takes
/// what they leave, and that asks for a thousand cells at most, with room for all.
pub open spec fn lengths_around(shares: Seq<Share>, k: int, room: int) -> bool {
    &&& 0 <= k < shares.len()
    &&& shares[k] matches Share::Least(least) && least <= 1000
    &&& forall|i: int| 0 <= i < shares.len() && i != k ==> #[trigger] shares[i] is Length
    &&& cells(shares) <= room
    &&& shares.len() <= 3
}

/// Whether the shares are at most three: hundredths that make up the whole.
pub open spec fn whole_in_hundredths(shares: Seq<Share>) -> bool {
    &&& forall|i: int| 0 <= i < shares.len() ==> #[trigger] shares[i] is Percent
    &&& hundredths(shares) == 100
    &&& shares.len() <= 3
}

/// Whether an area of `room` cells can be divided by `shares` so that each gets what it asks for.
pub open spec fn divisible(shares: Seq<Share>, room: int) -> bool {
    (exists|k: int| lengths_around(shares, k, room)) || whole_in_hundredths(shares)
}

/// How far into an area of `room` cells the part number `i` begins: behind the cells of the parts
/// before it, with what is left over for the share that takes it, or at the nearest cell to the
/// hundredths before it.
pub open spec fn part_begin(shares: Seq<Share>, room: int, i: int) -> int {
    let before = shares.take(i);
    if whole_in_hundredths(shares) {
        (hundredths(before) * room + 50) / 100
    } else if exists|k: int| 0 <= k < i && #[trigger] shares[k] is Least {
        room - cells(shares.skip(i))
    } else {
        cells(before)
    }
}

/// The parts of an area that is divided from top to bottom.
pub open spec fn rows_of(shares: Seq<Share>, area: Rect) -> Seq<Rect> {
    Seq::new(
        shares.len(),
        |i: int|
            Rect {
                x: area.x,
                y: (area.y + part_begin(shares, area.height as int, i)) as u16,
                width: area.width,
                height: (part_begin(shares, area.height as int, i + 1) - part_begin(
                    shares,
                    area.height as int,
                    i,
                )) as u16,
            },
    )
}

/// The parts of an area that is divided from left to right.
pub open spec fn columns_of(shares: Seq<Share>, area: Rect) -> Seq<Rect> {
    Seq::new(
        shares.len(),
        |i: int|
            Rect {
                x: (area.x + part_begin(shares, area.width as int, i)) as u16,
                y: area.y,
                width: (part_begin(shares, area.width as int, i + 1) - part_begin(
                    shares,
                    area.width as int,
                    i,
                )) as u16,
                height: area.height,
            },
    )
}

/// Divides an area, from top to bottom or from left to right, with `ratatui`'s `Layout::split`.
///
/// Believed of it: as long as every share can have what it asks for, it does. Lengths get their
/// cells, a single `Constraint::Min` among them gets all that they leave, and percentages of one
/// hundred in all are cut at the nearest cells. The parts follow one another without a gap, and
/// across the direction of the division each is as wide as the area.
#[verifier::external_body]
pub(crate) fn split(axis: Axis, shares: &Vec<Share>, area: Rect) -> (r: Vec<Rect>)
    requires
        area.wf(),
        axis is Vertical ==> divisible(shares@, area.height as int),
        axis is Horizontal ==> divisible(shares@, area.width as int),
    ensures
        axis is Vertical ==> r@ == rows_of(shares@, area),
        axis is Horizontal ==> r@ == columns_of(shares@, area),
{
    let direction = match axis {
        Axis::Vertical => Direction::Vertical,
        Axis::Horizontal => Direction::Horizontal,
    };
    let constraints = shares.iter().map(|share| match share {
        Share::Length(n) => Constraint::Length(*n),
        Share::Least(n) => Constraint::Min(*n),
        Share::Percent(p) => Constraint::Percentage(*p),
    });
    let whole = ratatui::layout::Rect { x: area.x, y: area.y, width: area.width, height: area.height };
    let parts = Layout::default().direction(direction).constraints(constraints).split(whole);
    parts.iter().map(|p| Rect { x: p.x, y: p.y, width: p.width, height: p.height }).collect()
}

/// The area inside a border on all four sides, as `ratatui`'s `Block::inner` has it.
///
/// Believed of it: each side takes a row or a column off the area, as long as there is one.
#[verifier::external_body]
pub(crate) fn inside(area: Rect) -> (r: Rect)
    requires
        area.wf(),
    ensures
        r == area.inside_border(),
{
    let whole = ratatui::layout::Rect { x: area.x, y: area.y, width: area.width, height: area.height };
    let p = Block::default().borders(Borders::ALL).inner(whole);
    Rect { x: p.x, y: p.y, width: p.width, height: p.height }
}

/// A header and a footer of fixed height leave the rows between them to the body.
pub proof fn lemma_header_body_footer(header: u16, body: u16, footer: u16, area: Rect)
    requires
        area.wf(),
        header + body + footer <= area.height,
        body <= 1000,
    ensures
        ({
            let shares = seq![Share::Length(header), Share::Least(body), Share::Length(footer)];
            &&& divisible(shares, area.height as int)
            &&& rows_of(shares, area) == seq![
                Rect { height: header, ..area },
                Rect {
                    y: (area.y + header) as u16,
                    height: (area.height - header - footer) as u16,
                    ..area
                },
                Rect { y: (area.y + area.height - footer) as u16, height: footer, ..area },
            ]
        }),
{
    let shares = seq![Share::Length(header), Share::Least(body), Share::Length(footer)];
    let room = area.height as int;
    reveal_with_fuel(cells, 4);
    reveal_with_fuel(hundredths, 4);
    assert(shares.drop_last() =~= seq![Share::Length(header), Share::Least(body)]);
    assert(shares.drop_last().drop_last() =~= seq![Share::Length(header)]);
    assert(cells(shares) == header + body + footer);
    assert(lengths_around(shares, 1, room));
    assert(!(shares[0] is Percent));
    assert(shares.take(0) =~= Seq::empty());
    assert(shares.take(1) =~= seq![Share::Length(header)]);
    assert(shares.skip(2) =~= seq![Share::Length(footer)]);
    assert(shares.skip(2).drop_last() =~= Seq::empty());
    assert(shares.skip(3) =~= Seq::empty());
    assert(shares[1] is Least);
    assert(part_begin(shares, room, 0) == 0);
    assert(part_begin(shares, room, 1) == header);
    assert(part_begin(shares, room, 2) == room - footer);
    assert(part_begin(shares, room, 3) == room);
    assert(rows_of(shares, area) =~= seq![
        Rect { height: header, ..area },
        Rect {
            y: (area.y + header) as u16,
            height: (area.height - header - footer) as u16,
            ..area
        },
        Rect { y: (area.y + area.height - footer) as u16, height: footer, ..area },
    ]);
}

/// A head of fixed height leaves the rows below it to the rest.
pub proof fn lemma_head_and_rest(head: u16, rest: u16, area: Rect)
    requires
        area.wf(),
        head + rest <= area.height,
        rest <= 1000,
    ensures
        ({
            let shares = seq![Share::Length(head), Share::Least(rest)];
            &&& divisible(shares, area.height as int)
            &&& rows_of(shares, area) == seq![
                Rect { height: head, ..area },
                Rect { y: (area.y + head) as u16, height: (area.height - head) as u16, ..area },
            ]
        }),
{
    let shares = seq![Share::Length(head), Share::Least(rest)];
    let room = area.height as int;
    reveal_with_fuel(cells, 3);
    reveal_with_fuel(hundredths, 3);
    assert(shares.drop_last() =~= seq![Share::Length(head)]);
    assert(cells(shares) == head + rest);
    assert(lengths_around(shares, 1, room));
    assert(!(shares[0] is Percent));
    assert(shares.take(0) =~= Seq::empty());
    assert(shares.take(1) =~= seq![Share::Length(head)]);
    assert(shares.skip(2) =~= Seq::empty());
    assert(shares[1] is Least);
    assert(part_begin(shares, room, 0) == 0);
    assert(part_begin(shares, room, 1) == head);
    assert(part_begin(shares, room, 2) == room);
    assert(rows_of(shares, area) =~= seq![
        Rect { height: head, ..area },
        Rect { y: (area.y + head) as u16, height: (area.height - head) as u16, ..area },
    ]);
}

/// Two columns meet at the cell that is nearest to the hundredths of the left one.
pub proof fn lemma_two_columns(left: u16, right: u16, area: Rect)
    requires
        area.wf(),
        left + right == 100,
    ensures
        ({
            let shares = seq![Share::Percent(left), Share::Percent(right)];
            let cut = (left * area.width + 50) / 100;
            &&& divisible(shares, area.width as int)
            &&& 0 <= cut <= area.width
            &&& columns_of(shares, area) == seq![
                Rect { width: cut as u16, ..area },
                Rect { x: (area.x + cut) as u16, width: (area.width - cut) as u16, ..area },
            ]
        }),
{
    let shares = seq![Share::Percent(left), Share::Percent(right)];
    let room = area.width as int;
    let cut = (left * room + 50) / 100;
    reveal_with_fuel(hundredths, 3);
    assert(shares.drop_last() =~= seq![Share::Percent(left)]);
    assert(whole_in_hundredths(shares));
    assert(shares.take(0) =~= Seq::empty());
    assert(shares.take(1) =~= seq![Share::Percent(left)]);
    assert(shares.take(2) =~= shares);
    assert(part_begin(shares, room, 0) == 0);
    assert(part_begin(shares, room, 1) == cut);
    assert(part_begin(shares, room, 2) == room);
    assert(0 <= left * room <= 100 * room) by (nonlinear_arith)
        requires
            0 <= left <= 100,
            0 <= room,
    ;
    assert(columns_of(shares, area) =~= seq![
        Rect { width: cut as u16, ..area },
        Rect { x: (area.x + cut) as u16, width: (area.width - cut) as u16, ..area },
    ]);
}

} // verus!
