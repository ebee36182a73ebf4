//! Where things stand on the screen.

use vstd::prelude::*;

use crate::outside::split;
use crate::state::App;

verus! {

/// A rectangle of the screen.
#[derive(Clone, Copy, Debug, PartialEq, Eq, Structural)]
pub struct Rect {
    pub x: u16,
    pub y: u16,
    pub width: u16,
    pub height: u16,
}

/// How large a part of a rectangle is to be.
#[derive(Clone, Copy, Debug, PartialEq, Eq, Structural)]
pub enum Constraint {
    Length(u16),
    Min(u16),
    Percentage(u16),
}

/// The way in which a rectangle is divided.
#[derive(Clone, Copy, Debug, PartialEq, Eq, Structural)]
pub enum Direction {
    /// Into parts side by side.
    Horizontal,
    /// Into parts one below the other.
    Vertical,
}

/// The end of a stretch of the screen, which has no place beyond the last.
pub open spec fn end_of(start: u16, len: u16) -> int {
    if start + len <= u16::MAX {
        start + len
    } else {
        u16::MAX as int
    }
}

impl Rect {
    /// The rectangle lies within another.
    pub open spec fn within(self, area: Rect) -> bool {
        &&& area.x <= self.x
        &&& end_of(self.x, self.width) <= end_of(area.x, area.width)
        &&& area.y <= self.y
        &&& end_of(self.y, self.height) <= end_of(area.y, area.height)
    }

    /// The rectangle is a part of another that is divided: it is as wide as
    /// that, or as high, and lies within it.
    pub open spec fn part_of(self, area: Rect, direction: Direction) -> bool {
        &&& match direction {
            Direction::Horizontal => self.y == area.y && self.height == area.height,
            Direction::Vertical => self.x == area.x && self.width == area.width,
        }
        &&& self.within(area)
    }

    /// The part of the rectangle from one share of it to another, in percent.
    pub open spec fn stretch(self, direction: Direction, from: int, to: int) -> Rect {
        match direction {
            Direction::Horizontal => Rect {
                x: place(self.x, self.width, from) as u16,
                width: (place(self.x, self.width, to) - place(self.x, self.width, from)) as u16,
                ..self
            },
            Direction::Vertical => Rect {
                y: place(self.y, self.height, from) as u16,
                height: (place(self.y, self.height, to) - place(self.y, self.height, from)) as u16,
                ..self
            },
        }
    }

    /// How long the rectangle is in the way in which it is divided.
    pub open spec fn length(self, direction: Direction) -> int {
        match direction {
            Direction::Horizontal => end_of(self.x, self.width) - self.x,
            Direction::Vertical => end_of(self.y, self.height) - self.y,
        }
    }

    /// The part of the rectangle that begins so far behind its beginning and is
    /// so long.
    pub open spec fn piece(self, direction: Direction, from: int, len: int) -> Rect {
        match direction {
            Direction::Horizontal => Rect {
                x: (self.x + from) as u16,
                width: len as u16,
                ..self
            },
            Direction::Vertical => Rect { y: (self.y + from) as u16, height: len as u16, ..self },
        }
    }

    /// One of the parts of the rectangle, one after the other, of which one takes
    /// the room that the others leave.
    pub open spec fn part_around_min(
        self,
        direction: Direction,
        constraints: Seq<Constraint>,
        i: int,
    ) -> Rect {
        let room = room_left(constraints, self.length(direction));
        self.piece(
            direction,
            shares_before(constraints, room, i as nat),
            share(constraints[i], room),
        )
    }

    /// Three parts of the rectangle, one after the other, with their shares of it
    /// in percent.
    pub open spec fn in_three(self, direction: Direction, a: int, b: int, c: int) -> Seq<Rect> {
        seq![
            self.stretch(direction, 0, a),
            self.stretch(direction, a, a + b),
            self.stretch(direction, a + b, a + b + c),
        ]
    }
}

/// The place on a stretch of the screen that is a share of it, in percent, away
/// from its beginning, rounded to the nearest place.
pub open spec fn place(start: u16, len: u16, percent: int) -> int {
    start + ((end_of(start, len) - start) * percent + 50) / 100
}

/// The places of a stretch of the screen lie on it, those of larger shares
/// behind those of smaller ones.
proof fn lemma_places(start: u16, len: u16, from: int, to: int)
    requires
        0 <= from <= to <= 100,
    ensures
        start <= place(start, len, from) <= place(start, len, to) <= end_of(start, len),
{
    let length = end_of(start, len) - start;
    assert(0 <= length * from <= length * to <= length * 100) by (nonlinear_arith)
        requires
            0 <= from <= to <= 100,
            0 <= length,
    ;
}

/// The share of a part that is given in percent.
pub open spec fn percent_of(constraint: Constraint) -> int {
    match constraint {
        Constraint::Percentage(percent) => percent as int,
        _ => 0,
    }
}

/// Three parts are given in percent, and together take no more than all.
pub open spec fn three_percentages(constraints: Seq<Constraint>) -> bool {
    &&& constraints.len() == 3
    &&& constraints[0] is Percentage && constraints[1] is Percentage && constraints[2] is Percentage
    &&& percent_of(constraints[0]) + percent_of(constraints[1]) + percent_of(constraints[2]) <= 100
}

/// How long a part is that has a fixed length, or a least size and the room that
/// is left.
pub open spec fn share(constraint: Constraint, room: int) -> int {
    match constraint {
        Constraint::Length(n) => n as int,
        Constraint::Min(n) => n + room,
        Constraint::Percentage(_) => 0,
    }
}

/// How long the first `n` parts are together.
pub open spec fn shares_before(constraints: Seq<Constraint>, room: int, n: nat) -> int
    decreases n,
{
    if n == 0 {
        0
    } else {
        shares_before(constraints, room, (n - 1) as nat) + share(constraints[n - 1], room)
    }
}

/// The room that is left of a length once every part has its least size.
pub open spec fn room_left(constraints: Seq<Constraint>, length: int) -> int {
    length - shares_before(constraints, 0, constraints.len())
}

/// One part has a least size, the others have a fixed length, and all of them fit
/// in a length.
pub open spec fn fits_around_min(constraints: Seq<Constraint>, length: int) -> bool {
    &&& exists|k: int|
        0 <= k < constraints.len() && (#[trigger] constraints[k]) is Min && forall|i: int|
            0 <= i < constraints.len() && i != k ==> (#[trigger] constraints[i]) is Length
    &&& room_left(constraints, length) >= 0
}

/// The sizes of the parts of the screen: the top line, the list, the query
/// where it is shown, and the two lines at the bottom.
pub open spec fn screen_constraints(show_search_bar: bool) -> Seq<Constraint> {
    if show_search_bar {
        seq![
            Constraint::Length(1),
            Constraint::Min(1),
            Constraint::Length(1),
            Constraint::Length(2),
        ]
    } else {
        seq![Constraint::Length(1), Constraint::Min(1), Constraint::Length(2)]
    }
}

/// The sizes of the parts of the screen.
pub fn screen_sizes(show_search_bar: bool) -> (r: Vec<Constraint>)
    ensures
        r@ == screen_constraints(show_search_bar),
{
    let mut sizes: Vec<Constraint> = Vec::new();
    sizes.push(Constraint::Length(1));
    sizes.push(Constraint::Min(1));
    if show_search_bar {
        sizes.push(Constraint::Length(1));
    }
    sizes.push(Constraint::Length(2));
    assert(sizes@ == screen_constraints(show_search_bar));
    sizes
}

/// The parts of the screen.
#[derive(Clone, Copy, Debug, PartialEq, Eq)]
pub struct ScreenAreas {
    pub header: Rect,
    pub list: Rect,
    pub search_bar: Option<Rect>,
    pub footer: Rect,
}

/// Gives the parts of a divided screen their use, from the top.
pub fn assign_areas(show_search_bar: bool, chunks: &Vec<Rect>) -> (r: ScreenAreas)
    requires
        chunks@.len() == screen_constraints(show_search_bar).len(),
    ensures
        r == (ScreenAreas {
            header: chunks@[0],
            list: chunks@[1],
            search_bar: if show_search_bar {
                Some(chunks@[2])
            } else {
                None
            },
            footer: chunks@[if show_search_bar {
                3int
            } else {
                2int
            }],
        }),
{
    if show_search_bar {
        ScreenAreas {
            header: chunks[0],
            list: chunks[1],
            search_bar: Some(chunks[2]),
            footer: chunks[3],
        }
    } else {
        ScreenAreas { header: chunks[0], list: chunks[1], search_bar: None, footer: chunks[2] }
    }
}

/// The rows that a screen needs for all its parts.
pub open spec fn rows_needed(show_search_bar: bool) -> int {
    if show_search_bar {
        5
    } else {
        4
    }
}

/// The parts of a screen that has room for all of them: a line at the top, two at
/// the bottom, above those the query where it is shown, and the list between.
pub open spec fn parts_of_screen(size: Rect, show_search_bar: bool) -> ScreenAreas {
    let rows = size.length(Direction::Vertical);
    ScreenAreas {
        header: Rect { height: 1, ..size },
        list: Rect {
            y: (size.y + 1) as u16,
            height: (rows - rows_needed(show_search_bar) + 1) as u16,
            ..size
        },
        search_bar: if show_search_bar {
            Some(Rect { y: (size.y + rows - 3) as u16, height: 1, ..size })
        } else {
            None
        },
        footer: Rect { y: (size.y + rows - 2) as u16, height: 2, ..size },
    }
}

impl App {
    /// The parts of a screen of a given size.
    ///
    /// How high the parts are of a screen without room for all of them is for the
    /// layout solver to say; they run across the whole screen and lie within it
    /// whatever it says.
    pub fn screen_areas(&self, size: Rect) -> (r: ScreenAreas)
        ensures
            r.header.part_of(size, Direction::Vertical),
            r.list.part_of(size, Direction::Vertical),
            r.search_bar is Some <==> self@.shows_search_bar(),
            r.search_bar is Some ==> r.search_bar.unwrap().part_of(size, Direction::Vertical),
            r.footer.part_of(size, Direction::Vertical),
            size.length(Direction::Vertical) >= rows_needed(self@.shows_search_bar()) ==> r
                == parts_of_screen(size, self@.shows_search_bar()),
    {
        let show_search_bar: bool = self.shows_search_bar();
        let sizes = screen_sizes(show_search_bar);
        let chunks = split(Direction::Vertical, &sizes, size);
        assert(chunks@[0].part_of(size, Direction::Vertical));
        assert(chunks@[1].part_of(size, Direction::Vertical));
        assert(chunks@[2].part_of(size, Direction::Vertical));
        proof {
            reveal_with_fuel(shares_before, 5);
            assert(sizes@[1] is Min);
        }
        assign_areas(show_search_bar, &chunks)
    }
}

/// The sizes of a part in the middle and the two beside it.
pub open spec fn centered_constraints(percent: u16) -> Seq<Constraint> {
    let side = ((100 - percent) / 2) as u16;
    seq![
        Constraint::Percentage(side),
        Constraint::Percentage(percent),
        Constraint::Percentage(side),
    ]
}

/// The sizes of a part in the middle and the two beside it.
pub fn centered_sizes(percent: u16) -> (r: Vec<Constraint>)
    requires
        percent <= 100,
    ensures
        r@ == centered_constraints(percent),
{
    let side: u16 = (100 - percent) / 2;
    let mut sizes: Vec<Constraint> = Vec::new();
    sizes.push(Constraint::Percentage(side));
    sizes.push(Constraint::Percentage(percent));
    sizes.push(Constraint::Percentage(side));
    assert(sizes@ == centered_constraints(percent));
    sizes
}

/// The share beside a part in the middle, in percent.
pub open spec fn side_of(percent: u16) -> int {
    (100 - percent) / 2
}

/// A rectangle in the middle of another, of a part of its width and height.
pub fn centered_rect(percent_x: u16, percent_y: u16, r: Rect) -> (popup: Rect)
    requires
        percent_x <= 100,
        percent_y <= 100,
    ensures
        popup.x == place(r.x, r.width, side_of(percent_x)),
        popup.x + popup.width == place(r.x, r.width, side_of(percent_x) + percent_x),
        popup.y == place(r.y, r.height, side_of(percent_y)),
        popup.y + popup.height == place(r.y, r.height, side_of(percent_y) + percent_y),
        popup.within(r),
{
    let rows = centered_sizes(percent_y);
    let popup_layout = split(Direction::Vertical, &rows, r);
    assert(popup_layout@[1].part_of(r, Direction::Vertical));
    let columns = centered_sizes(percent_x);
    let middle = split(Direction::Horizontal, &columns, popup_layout[1]);
    assert(middle@[1].part_of(popup_layout@[1], Direction::Horizontal));
    proof {
        lemma_places(r.y, r.height, side_of(percent_y), side_of(percent_y) + percent_y);
        lemma_places(r.x, r.width, side_of(percent_x), side_of(percent_x) + percent_x);
    }
    middle[1]
}

/// A screen with room for all parts is divided without a gap and without an
/// overlap: one line at the top, the list, one line for the query where it is shown,
/// and two lines at the bottom, all of them as wide as the screen.
pub proof fn law_parts_of_the_screen(size: Rect, show_search_bar: bool)
    requires
        size.length(Direction::Vertical) >= if show_search_bar {
            5int
        } else {
            4
        },
    ensures
        rows_needed(show_search_bar) == if show_search_bar {
            5int
        } else {
            4
        },
        ({
            let parts = parts_of_screen(size, show_search_bar);
            let end = size.y + size.length(Direction::Vertical);
            &&& parts.header == (Rect { height: 1, ..size })
            &&& parts.list.x == size.x && parts.list.width == size.width
            &&& parts.list.y == size.y + 1 && parts.list.height >= 1
            &&& parts.search_bar is Some <==> show_search_bar
            &&& parts.search_bar matches Some(bar) ==> bar.x == size.x && bar.width == size.width
                && bar.height == 1 && bar.y == parts.list.y + parts.list.height && bar.y + 1
                == parts.footer.y
            &&& !show_search_bar ==> parts.list.y + parts.list.height == parts.footer.y
            &&& parts.footer.x == size.x && parts.footer.width == size.width
            &&& parts.footer.height == 2 && parts.footer.y + 2 == end
        }),
{
}

/// A length of the screen goes to its last place at most.
pub proof fn law_length(area: Rect)
    ensures
        area.length(Direction::Vertical) == if area.y + area.height <= u16::MAX {
            area.height as int
        } else {
            u16::MAX - area.y
        },
        area.length(Direction::Horizontal) == if area.x + area.width <= u16::MAX {
            area.width as int
        } else {
            u16::MAX - area.x
        },
{
}

/// A place on the screen is the share of the length that was asked for, to within
/// half a place, and the two shares beside a part in the middle are the same.
pub proof fn law_places(start: u16, len: u16, percent: u16)
    requires
        percent <= 100,
    ensures
        ({
            let exact = (end_of(start, len) - start) * (percent as int);
            let rounded = (place(start, len, percent as int) - start) * 100;
            exact - 50 < rounded <= exact + 50
        }),
        2 * side_of(percent) + percent <= 100 < 2 * side_of(percent) + percent + 2,
{
}

} // verus!
