//! Members on the move: who stands where, how far they have to go, and whether
//! the squad is getting closer.

use crate::colony::count_true;
use crate::position::WPos;
use vstd::prelude::*;

verus! {

/// The flagged positions, in slot order.
pub open spec fn flagged(flags: Seq<bool>, pos: Seq<WPos>) -> Seq<WPos>
    decreases flags.len(),
{
    if flags.len() == 0 {
        seq![]
    } else {
        let rest = flagged(flags.drop_last(), pos.take(flags.len() - 1));
        if flags.last() {
            rest.push(pos[flags.len() - 1])
        } else {
            rest
        }
    }
}

/// Distance in rooms of each flagged member to `to`.
pub open spec fn room_dists(flags: Seq<bool>, pos: Seq<WPos>, to: WPos) -> Seq<Option<u32>> {
    Seq::new(
        flags.len(),
        |i: int|
            if flags[i] {
                Some(pos[i].rooms_to(to) as u32)
            } else {
                None
            },
    )
}

/// The smallest of the distances that are there.
pub open spec fn least(d: Seq<Option<u32>>) -> Option<u32>
    decreases d.len(),
{
    if d.len() == 0 {
        None
    } else {
        let rest = least(d.drop_last());
        match (rest, d.last()) {
            (Some(a), Some(b)) => Some(
                if b < a {
                    b
                } else {
                    a
                },
            ),
            (Some(a), None) => Some(a),
            (None, b) => b,
        }
    }
}

/// A first reading, or one smaller than the last, counts as progress.
pub open spec fn closing(cur: Option<u32>, prev: Option<u32>) -> bool {
    match (cur, prev) {
        (Some(c), Some(p)) => c < p,
        (Some(_), None) => true,
        _ => false,
    }
}

/// Some flagged member stands in the room of `to`.
pub open spec fn any_in_room(flags: Seq<bool>, pos: Seq<WPos>, to: WPos) -> bool {
    exists|i: int|
        0 <= i < flags.len() && flags[i] && (#[trigger] pos[i]).room_of() == to.room_of()
}

/// A list of rooms names this one.
pub open spec fn lists_room(rooms: Seq<(i32, i32)>, room: (int, int)) -> bool {
    exists|j: int|
        0 <= j < rooms.len() && (#[trigger] rooms[j]).0 == room.0 && rooms[j].1 == room.1
}

pub proof fn lemma_flagged_take(flags: Seq<bool>, pos: Seq<WPos>, i: int)
    requires
        0 <= i < flags.len(),
        flags.len() == pos.len(),
    ensures
        flagged(flags.take(i + 1), pos.take(i + 1)) == if flags[i] {
            flagged(flags.take(i), pos.take(i)).push(pos[i])
        } else {
            flagged(flags.take(i), pos.take(i))
        },
{
    assert(flags.take(i + 1).drop_last() =~= flags.take(i));
    assert(pos.take(i + 1).take(i) =~= pos.take(i));
}

pub proof fn lemma_flagged_len(flags: Seq<bool>, pos: Seq<WPos>)
    requires
        flags.len() == pos.len(),
    ensures
        flagged(flags, pos).len() == count_true(flags),
    decreases flags.len(),
{
    if flags.len() > 0 {
        lemma_flagged_len(flags.drop_last(), pos.take(flags.len() - 1));
    }
}

pub fn collect_flagged(flags: &Vec<bool>, pos: &Vec<WPos>) -> (r: Vec<WPos>)
    requires
        flags@.len() == pos@.len(),
    ensures
        r@ == flagged(flags@, pos@),
{
    let mut out: Vec<WPos> = Vec::new();
    let mut i: usize = 0;
    while i < flags.len()
        invariant
            i <= flags.len(),
            flags@.len() == pos@.len(),
            out@ == flagged(flags@.take(i as int), pos@.take(i as int)),
        decreases flags.len() - i,
    {
        proof {
            lemma_flagged_take(flags@, pos@, i as int);
        }
        if flags[i] {
            out.push(pos[i]);
        }
        i = i + 1;
    }
    assert(flags@.take(i as int) =~= flags@);
    assert(pos@.take(i as int) =~= pos@);
    out
}

pub fn measure_rooms(flags: &Vec<bool>, pos: &Vec<WPos>, to: WPos) -> (r: Vec<Option<u32>>)
    requires
        flags@.len() == pos@.len(),
    ensures
        r@ == room_dists(flags@, pos@, to),
{
    let mut out: Vec<Option<u32>> = Vec::new();
    let mut i: usize = 0;
    while i < flags.len()
        invariant
            i <= flags.len(),
            flags@.len() == pos@.len(),
            out@ == room_dists(flags@, pos@, to).take(i as int),
        decreases flags.len() - i,
    {
        let d: Option<u32> = if flags[i] {
            Some(pos[i].room_dist(to))
        } else {
            None
        };
        out.push(d);
        i = i + 1;
        assert(out@ =~= room_dists(flags@, pos@, to).take(i as int));
    }
    assert(out@ =~= room_dists(flags@, pos@, to));
    out
}

pub fn least_of(d: &Vec<Option<u32>>) -> (r: Option<u32>)
    ensures
        r == least(d@),
{
    let mut best: Option<u32> = None;
    let mut i: usize = 0;
    while i < d.len()
        invariant
            i <= d.len(),
            best == least(d@.take(i as int)),
        decreases d.len() - i,
    {
        assert(d@.take(i as int + 1).drop_last() =~= d@.take(i as int));
        let cur: Option<u32> = d[i];
        best = match (best, cur) {
            (Some(a), Some(b)) => if b < a {
                Some(b)
            } else {
                Some(a)
            },
            (Some(a), None) => Some(a),
            (None, b) => b,
        };
        i = i + 1;
    }
    assert(d@.take(i as int) =~= d@);
    best
}

pub fn is_closing(cur: Option<u32>, prev: Option<u32>) -> (r: bool)
    ensures
        r == closing(cur, prev),
{
    match (cur, prev) {
        (Some(c), Some(p)) => c < p,
        (Some(_), None) => true,
        _ => false,
    }
}

pub fn someone_in_room(flags: &Vec<bool>, pos: &Vec<WPos>, to: WPos) -> (r: bool)
    requires
        flags@.len() == pos@.len(),
    ensures
        r == any_in_room(flags@, pos@, to),
{
    let mut i: usize = 0;
    while i < flags.len()
        invariant
            i <= flags.len(),
            flags@.len() == pos@.len(),
            forall|k: int|
                0 <= k < i && flags@[k] ==> (#[trigger] pos@[k]).room_of() != to.room_of(),
        decreases flags.len() - i,
    {
        if flags[i] && pos[i].same_room(to) {
            return true;
        }
        i = i + 1;
    }
    false
}

pub fn room_listed(rooms: &Vec<(i32, i32)>, room: (i32, i32)) -> (r: bool)
    ensures
        r == lists_room(rooms@, (room.0 as int, room.1 as int)),
{
    let mut j: usize = 0;
    while j < rooms.len()
        invariant
            j <= rooms.len(),
            forall|k: int|
                0 <= k < j ==> !((#[trigger] rooms@[k]).0 == room.0 && rooms@[k].1 == room.1),
        decreases rooms.len() - j,
    {
        let listed: (i32, i32) = rooms[j];
        if listed.0 == room.0 && listed.1 == room.1 {
            return true;
        }
        j = j + 1;
    }
    false
}

/// The flagged positions are those of the flagged members and of nobody else, as many as
/// there are flags.
pub proof fn flagged_are_the_flagged_members(flags: Seq<bool>, pos: Seq<WPos>, p: WPos)
    requires
        flags.len() == pos.len(),
    ensures
        flagged(flags, pos).len() == count_true(flags),
        flagged(flags, pos).contains(p) <==> exists|i: int|
            0 <= i < flags.len() && flags[i] && #[trigger] pos[i] == p,
    decreases flags.len(),
{
    lemma_flagged_len(flags, pos);
    if flags.len() > 0 {
        let n = flags.len() - 1;
        let (f, q) = (flags.drop_last(), pos.take(n));
        flagged_are_the_flagged_members(f, q, p);
        let rest = flagged(f, q);
        let all = flagged(flags, pos);
        assert forall|i: int| 0 <= i < n implies q[i] == #[trigger] pos[i] && f[i] == flags[i] by {}
        if all.contains(p) {
            let k = choose|k: int| 0 <= k < all.len() && all[k] == p;
            if k < rest.len() {
                assert(rest[k] == p);
                let i = choose|i: int| 0 <= i < f.len() && f[i] && #[trigger] q[i] == p;
                assert(pos[i] == p && flags[i]);
            } else {
                assert(pos[n] == p && flags[n]);
            }
        }
        if exists|i: int| 0 <= i < flags.len() && flags[i] && #[trigger] pos[i] == p {
            let i = choose|i: int| 0 <= i < flags.len() && flags[i] && #[trigger] pos[i] == p;
            if i < n {
                assert(f[i] && q[i] == p);
                let k = choose|k: int| 0 <= k < rest.len() && rest[k] == p;
                assert(all[k] == p);
            } else {
                assert(all[rest.len() as int] == p);
            }
        }
    }
}

/// The least of the readings is one of them, and none is below it; there is none exactly
/// where there is no reading.
pub proof fn least_is_a_least_reading(d: Seq<Option<u32>>, i: int)
    requires
        0 <= i < d.len(),
    ensures
        least(d) matches Some(m) ==> d.contains(Some(m)),
        d[i] matches Some(x) ==> (least(d) matches Some(m) && m <= x),
    decreases d.len(),
{
    let t = d.drop_last();
    if i < t.len() {
        least_is_a_least_reading(t, i);
    } else if t.len() > 0 {
        least_is_a_least_reading(t, 0);
    }
    if let Some(m) = least(d) {
        if t.contains(Some(m)) {
            let k = choose|k: int| 0 <= k < t.len() && t[k] == Some(m);
            assert(d[k] == Some(m));
        } else {
            assert(d[d.len() - 1] == Some(m));
        }
    }
}

/// A squad closes in on a first reading and on a smaller one, and on nothing else.
pub proof fn only_a_smaller_reading_closes(c: u32, p: u32)
    ensures
        closing(Some(c), None),
        c < p ==> closing(Some(c), Some(p)),
        c >= p ==> !closing(Some(c), Some(p)),
        !closing(None, Some(p)),
        !closing(None, None),
{
}

/// A member's distance is read where it is counted, in rooms, the longer of the two ways.
pub proof fn distances_are_of_the_flagged(flags: Seq<bool>, pos: Seq<WPos>, to: WPos, i: int)
    requires
        flags.len() == pos.len(),
        0 <= i < flags.len(),
    ensures
        ({
            let d = room_dists(flags, pos, to);
            let (dx, dy) = (
                pos[i].wx as int / 50 - to.wx as int / 50,
                pos[i].wy as int / 50 - to.wy as int / 50,
            );
            &&& d.len() == flags.len()
            &&& !flags[i] ==> d[i] is None
            &&& flags[i] ==> (d[i] matches Some(x) && x >= dx && x >= -dx && x >= dy && x >= -dy
                && (x == dx || x == -dx || x == dy || x == -dy))
        }),
{
}

} // verus!
