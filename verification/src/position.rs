//! World positions: one integer pair per tile, fifty tiles to a room.

use crate::text::decimal;
use vstd::prelude::*;

verus! {

/// Tiles along one side of a room.
pub const ROOM_SIZE: i32 = 50;

/// World coordinates lie in `-WORLD_HALF .. WORLD_HALF` on both axes.
pub const WORLD_HALF: i32 = 6400;

/// A tile of the world: `50 * room + offset` on each axis. Rooms west and north
/// of the origin have negative room coordinates.
#[derive(Clone, Copy, Debug, PartialEq, Eq, Structural)]
pub struct WPos {
    pub wx: i32,
    pub wy: i32,
}

pub open spec fn sign_of(v: int) -> int {
    if v > 0 {
        1
    } else if v < 0 {
        -1
    } else {
        0
    }
}

pub open spec fn abs_of(v: int) -> int {
    if v < 0 {
        -v
    } else {
        v
    }
}

pub open spec fn max_of(a: int, b: int) -> int {
    if a >= b {
        a
    } else {
        b
    }
}

/// Chebyshev distance between two points of a grid.
pub open spec fn grid_dist(ax: int, ay: int, bx: int, by: int) -> int {
    max_of(abs_of(ax - bx), abs_of(ay - by))
}

impl WPos {
    /// The tile is one that the game world has.
    pub open spec fn in_world(self) -> bool {
        &&& -WORLD_HALF <= self.wx < WORLD_HALF
        &&& -WORLD_HALF <= self.wy < WORLD_HALF
    }

    /// The room coordinates of the tile.
    pub open spec fn room_of(self) -> (int, int) {
        (self.wx as int / 50, self.wy as int / 50)
    }

    /// The tile one step from `self` toward `to`, diagonals allowed.
    pub open spec fn stepped(self, to: WPos) -> WPos {
        WPos {
            wx: (self.wx + sign_of(to.wx - self.wx)) as i32,
            wy: (self.wy + sign_of(to.wy - self.wy)) as i32,
        }
    }

    /// Distance in rooms.
    pub open spec fn rooms_to(self, o: WPos) -> int {
        grid_dist(self.room_of().0, self.room_of().1, o.room_of().0, o.room_of().1)
    }

    /// Distance in tiles.
    pub open spec fn tiles_to(self, o: WPos) -> int {
        grid_dist(self.wx as int, self.wy as int, o.wx as int, o.wy as int)
    }

    /// The room that holds the tile.
    pub fn room(self) -> (r: (i32, i32))
        ensures
            r.0 == self.room_of().0,
            r.1 == self.room_of().1,
    {
        (floor_div_room(self.wx), floor_div_room(self.wy))
    }

    /// One step toward `to`, diagonals allowed.
    pub fn step_toward(self, to: WPos) -> (r: WPos)
        ensures
            r == self.stepped(to),
    {
        WPos { wx: stepped_axis(self.wx, to.wx), wy: stepped_axis(self.wy, to.wy) }
    }

    /// Chebyshev distance between the rooms of two tiles.
    pub fn room_dist(self, o: WPos) -> (r: u32)
        ensures
            r == self.rooms_to(o),
    {
        let a: (i32, i32) = self.room();
        let b: (i32, i32) = o.room();
        axis_max(a.0, a.1, b.0, b.1)
    }

    /// Whether two tiles share a room.
    pub fn same_room(self, o: WPos) -> (r: bool)
        ensures
            r == (self.room_of() == o.room_of()),
    {
        let a: (i32, i32) = self.room();
        let b: (i32, i32) = o.room();
        a.0 == b.0 && a.1 == b.1
    }
}

/// Division by the room size, rounded toward negative infinity.
fn floor_div_room(v: i32) -> (r: i32)
    ensures
        r == v as int / 50,
{
    if v >= 0 {
        v / 50
    } else {
        let t: i32 = -((-(v + 1)) / 50) - 1;
        t
    }
}

pub(crate) fn stepped_axis(from: i32, to: i32) -> (r: i32)
    ensures
        r == from + sign_of(to - from),
{
    if to > from {
        from + 1
    } else if to < from {
        from - 1
    } else {
        from
    }
}

fn axis_gap(a: i32, b: i32) -> (r: u32)
    ensures
        r == abs_of(a - b),
{
    if a >= b {
        (a as i64 - b as i64) as u32
    } else {
        (b as i64 - a as i64) as u32
    }
}

/// Chebyshev distance between two points of a grid.
pub(crate) fn axis_max(ax: i32, ay: i32, bx: i32, by: i32) -> (r: u32)
    ensures
        r == grid_dist(ax as int, ay as int, bx as int, by as int),
{
    let dx: u32 = axis_gap(ax, bx);
    let dy: u32 = axis_gap(ay, by);
    if dx >= dy {
        dx
    } else {
        dy
    }
}

/// `screeps::Position::get_range_to` between the positions that
/// `screeps::Position::from_world_coords` gives for two tiles: the greater of the
/// distances along the two axes, measured across room borders.
#[verifier::external_body]
pub(crate) fn tile_range(a: WPos, b: WPos) -> (r: u32)
    requires
        a.in_world(),
        b.in_world(),
    ensures
        r == a.tiles_to(b),
{
    let from = screeps::Position::from_world_coords(a.wx, a.wy);
    let to = screeps::Position::from_world_coords(b.wx, b.wy);
    from.get_range_to(to)
}

/// The name of a room: west and east, north and south of the origin, counted from it.
pub open spec fn room_name_of(room: (int, int)) -> Seq<char> {
    (if room.0 >= 0 {
        seq!['E'] + decimal(room.0 as nat)
    } else {
        seq!['W'] + decimal((-room.0 - 1) as nat)
    }) + (if room.1 >= 0 {
        seq!['S'] + decimal(room.1 as nat)
    } else {
        seq!['N'] + decimal((-room.1 - 1) as nat)
    })
}

/// `screeps::Position::room_name` of the position that
/// `screeps::Position::from_world_coords` gives for a tile, as its `Display` writes it:
/// a letter and a number for each axis.
#[verifier::external_body]
pub(crate) fn room_name_at(p: WPos) -> (r: String)
    requires
        p.in_world(),
    ensures
        r@ == room_name_of(p.room_of()),
{
    screeps::Position::from_world_coords(p.wx, p.wy).room_name().to_string()
}

pub open spec fn is_digit(c: char) -> bool {
    '0' <= c && c <= '9'
}

/// The number that digits stand for.
pub open spec fn digits_value(t: Seq<char>) -> int
    decreases t.len(),
{
    if t.len() == 0 {
        0
    } else {
        10 * digits_value(t.drop_last()) + (t.last() as int - 48)
    }
}

/// The number that a text stands for: a sign or none, then digits and nothing else, and
/// small enough for an `i32`.
pub open spec fn number_read(t: Seq<char>) -> Option<int> {
    let signed = t.len() > 0 && (t[0] == '+' || t[0] == '-');
    let digits = if signed {
        t.skip(1)
    } else {
        t
    };
    let n = if signed && t[0] == '-' {
        -digits_value(digits)
    } else {
        digits_value(digits)
    };
    if digits.len() > 0 && (forall|i: int| 0 <= i < digits.len() ==> is_digit(#[trigger] digits[i]))
        && i32::MIN <= n <= i32::MAX {
        Some(n)
    } else {
        None
    }
}

/// The first place from `from` on of a letter for north or south.
pub open spec fn north_or_south(name: Seq<char>, from: int) -> Option<int>
    decreases name.len() - from,
{
    if from >= name.len() {
        None
    } else if name[from] == 'N' || name[from] == 'n' || name[from] == 'S' || name[from] == 's' {
        Some(from)
    } else {
        north_or_south(name, from + 1)
    }
}

/// A room's name taken apart: whether it lies east and how far, whether south and how far.
/// At least one character stands between the two letters.
pub open spec fn name_parts(name: Seq<char>) -> Option<(bool, int, bool, int)> {
    let east = name.len() > 0 && (name[0] == 'E' || name[0] == 'e');
    let west = name.len() > 0 && (name[0] == 'W' || name[0] == 'w');
    match north_or_south(name, 2) {
        Some(k) if east || west => match (
            number_read(name.subrange(1, k)),
            number_read(name.skip(k + 1)),
        ) {
            (Some(x), Some(y)) => Some((east, x, name[k] == 'S' || name[k] == 's', y)),
            _ => None,
        },
        _ => None,
    }
}

/// Counting from the other side of the origin stays in the integer range.
pub open spec fn name_fits(name: Seq<char>) -> bool {
    name_parts(name) matches Some((east, x, south, y)) ==> (east || x > i32::MIN) && (south || y
        > i32::MIN)
}

/// The room that a name stands for, if it is one of the world's.
pub open spec fn room_read(name: Seq<char>) -> Option<(int, int)> {
    match name_parts(name) {
        Some((east, x, south, y)) => {
            let room = (
                if east {
                    x
                } else {
                    -x - 1
                },
                if south {
                    y
                } else {
                    -y - 1
                },
            );
            if -128 <= room.0 < 128 && -128 <= room.1 < 128 {
                Some(room)
            } else {
                None
            }
        },
        None => None,
    }
}

/// `screeps::RoomName::new`, with the `x_coord` and `y_coord` of the room that it gives: a
/// letter and a number for each axis, in either case, the numbers as the standard library
/// reads an `i32`. A name of another form, or of a room beyond the world, is an error.
#[verifier::external_body]
pub(crate) fn room_of_name(name: &str) -> (r: Option<(i32, i32)>)
    requires
        name_fits(name@),
    ensures
        match r {
            Some(room) => room_read(name@) == Some((room.0 as int, room.1 as int)),
            None => room_read(name@) is None,
        },
{
    match screeps::RoomName::new(name) {
        Ok(room) => Some((room.x_coord(), room.y_coord())),
        Err(_) => None,
    }
}

/// The name of a room reads back as the room.
pub proof fn room_names_read_back(room: (int, int))
    requires
        -128 <= room.0 < 128,
        -128 <= room.1 < 128,
    ensures
        name_fits(room_name_of(room)),
        room_read(room_name_of(room)) == Some(room),
{
    let x = if room.0 >= 0 {
        room.0
    } else {
        -room.0 - 1
    };
    let y = if room.1 >= 0 {
        room.1
    } else {
        -room.1 - 1
    };
    let name = room_name_of(room);
    let (a, b) = (decimal(x as nat), decimal(y as nat));
    lemma_decimal_reads_back(x as nat);
    lemma_decimal_reads_back(y as nat);
    lemma_decimal_value(x as nat);
    let k = 1 + a.len() as int;
    assert(name.subrange(1, k) =~= a);
    assert(name.skip(k + 1) =~= b);
    assert(name[k] == if room.1 >= 0 {
        'S'
    } else {
        'N'
    });
    assert forall|i: int| 1 <= i < k implies is_digit(#[trigger] name[i]) by {
        assert(name[i] == a[i - 1]);
    }
    lemma_letter_found(name, 2, k);
}

proof fn lemma_letter_found(name: Seq<char>, from: int, k: int)
    requires
        0 <= from <= k < name.len(),
        name[k] == 'S' || name[k] == 'N',
        forall|i: int| from <= i < k ==> is_digit(#[trigger] name[i]),
    ensures
        north_or_south(name, from) == Some(k),
    decreases k - from,
{
    if from < k {
        assert(is_digit(name[from]));
        lemma_letter_found(name, from + 1, k);
    }
}

proof fn lemma_decimal_reads_back(n: nat)
    requires
        n <= i32::MAX,
    ensures
        decimal(n).len() > 0,
        number_read(decimal(n)) == Some(n as int),
{
    lemma_decimal_value(n);
    let t = decimal(n);
    assert(is_digit(t[0]));
}

proof fn lemma_decimal_value(n: nat)
    ensures
        decimal(n).len() > 0,
        forall|i: int| 0 <= i < decimal(n).len() ==> is_digit(#[trigger] decimal(n)[i]),
        digits_value(decimal(n)) == n,
    decreases n,
{
    let t = decimal(n);
    if n < 10 {
        assert(t.drop_last() =~= seq![]);
        assert(digits_value(t.drop_last()) == 0);
        assert(t.last() as int == 48 + n);
    } else {
        lemma_decimal_value(n / 10);
        assert(t.last() as int == 48 + n % 10);
        assert(t.drop_last() =~= decimal(n / 10));
        assert forall|i: int| 0 <= i < t.len() implies is_digit(#[trigger] t[i]) by {
            if i < t.len() - 1 {
                assert(t[i] == decimal(n / 10)[i]);
            }
        }
    }
}

/// A step moves a tile's distance to its goal down by exactly one until it is
/// there.
pub proof fn step_closes_distance(from: WPos, to: WPos)
    ensures
        from.stepped(to).tiles_to(to) == if from == to {
            0
        } else {
            from.tiles_to(to) - 1
        },
{
}

/// Distance in rooms is symmetric, zero exactly within one room, and obeys the
/// triangle inequality.
pub proof fn room_distance_is_a_metric(a: WPos, b: WPos, c: WPos)
    ensures
        a.rooms_to(b) == b.rooms_to(a),
        a.rooms_to(b) == 0 <==> a.room_of() == b.room_of(),
        a.rooms_to(c) <= a.rooms_to(b) + b.rooms_to(c),
{
}

/// A step changes each coordinate by at most one, toward the goal.
pub proof fn a_tile_step_is_toward_the_goal(a: WPos, b: WPos)
    ensures
        ({
            let n = a.stepped(b);
            &&& a.wx < b.wx ==> n.wx == a.wx + 1
            &&& a.wx > b.wx ==> n.wx == a.wx - 1
            &&& a.wx == b.wx ==> n.wx == a.wx
            &&& a.wy < b.wy ==> n.wy == a.wy + 1
            &&& a.wy > b.wy ==> n.wy == a.wy - 1
            &&& a.wy == b.wy ==> n.wy == a.wy
        }),
{
}

/// A room is fifty tiles wide and high, also on the far side of the origin.
pub proof fn a_room_is_fifty_tiles(p: WPos)
    ensures
        50 * p.room_of().0 <= p.wx < 50 * p.room_of().0 + 50,
        50 * p.room_of().1 <= p.wy < 50 * p.room_of().1 + 50,
{
}

/// Distance in tiles is the longer of the two ways, symmetric, and zero on one tile only.
pub proof fn tile_distance_is_a_metric(a: WPos, b: WPos, c: WPos)
    ensures
        a.tiles_to(b) == b.tiles_to(a),
        a.tiles_to(b) == 0 <==> a == b,
        a.tiles_to(c) <= a.tiles_to(b) + b.tiles_to(c),
        a.tiles_to(b) >= a.wx - b.wx,
        a.tiles_to(b) >= a.wy - b.wy,
        a.tiles_to(b) == a.wx - b.wx || a.tiles_to(b) == b.wx - a.wx || a.tiles_to(b) == a.wy
            - b.wy || a.tiles_to(b) == b.wy - a.wy,
{
}

/// The world is 256 rooms across, of fifty tiles each, and its middle is where four rooms meet.
pub proof fn the_world_is_so_many_rooms_across(p: WPos)
    ensures
        p.in_world() <==> -128 <= p.room_of().0 < 128 && -128 <= p.room_of().1 < 128,
        p.in_world() <==> -6400 <= p.wx <= 6399 && -6400 <= p.wy <= 6399,
        128 * ROOM_SIZE == WORLD_HALF,
{
}

} // verus!
