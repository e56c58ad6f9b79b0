//! Merging squads: which roles a squad can shed or still wants, and what moving a
//! donor's members into a receiver's open slots leaves behind.

use crate::auction::{AssignmentSolution, ColumnKind, EvMatrix};
use crate::lists::copied;
use vstd::prelude::*;

verus! {

/// The energy of the tower that guards a defended cell.
pub const TOWER_ENERGY: u32 = 1000;

/// A slot of a squad: the bit of the role that it is for, and whether a present
/// member fills it or it is still to be spawned.
#[derive(Clone, Copy, Debug, PartialEq, Eq, Structural)]
pub struct MergeSlot {
    pub role: u8,
    pub filled: bool,
}

/// A squad that may give or take members.
#[derive(Clone, Debug)]
pub struct MergeSquad {
    pub structure_dps: u32,
    pub heal: u32,
    /// What the members that it can shed deal and heal.
    pub sheddable_dps: u32,
    pub sheddable_heal: u32,
    pub current_objective: u32,
    pub slots: Vec<MergeSlot>,
    /// It may be a donor.
    pub merge_eligible: bool,
}

/// A merge scenario. Objectives are keyed by index; values are bit patterns.
#[derive(Clone, Debug)]
pub struct MergeFlowScenario {
    pub squads: Vec<MergeSquad>,
    pub objective_values: Vec<u32>,
    /// Range of the objective's one tower, or 0 for none.
    pub objective_tower_range: Vec<u32>,
    pub objective_required_hits: Vec<u32>,
    pub merge_enabled: bool,
}

/// A squad's row in the matrix.
#[derive(Clone, Copy, Debug, PartialEq, Eq, Structural)]
pub struct MergeRow {
    pub heal: u32,
    pub structure_dps: u32,
    pub sheddable_heal: u32,
    pub sheddable_dps: u32,
    pub current_objective: u32,
    pub merge_eligible: bool,
    pub sheddable_roles: u8,
    pub open_slot_roles: u8,
}

/// An objective's cell in the matrix.
#[derive(Clone, Copy, Debug, PartialEq, Eq, Structural)]
pub struct MergeCell {
    pub id: u32,
    pub value: u32,
    pub required_hits: u32,
    /// Range of the objective's one tower, if it has one.
    pub tower_range: Option<u32>,
}

/// What is left after the chosen merge, if any, is carried out.
#[derive(Clone, Debug, PartialEq, Eq)]
pub struct MergeOutcome {
    /// Donors that gave away their last member.
    pub retired: Vec<bool>,
    /// Filled and open slots of each squad.
    pub slots: Vec<(usize, usize)>,
    /// Donor, receiver and number of members moved.
    pub merge: Option<(usize, usize, usize)>,
}

/// The roles of the slots that are filled, or of those that are open.
pub open spec fn roles_of(slots: Seq<MergeSlot>, filled: bool) -> u8
    decreases slots.len(),
{
    if slots.len() == 0 {
        0u8
    } else {
        let before = roles_of(slots.drop_last(), filled);
        if slots.last().filled == filled {
            before | slots.last().role
        } else {
            before
        }
    }
}

/// How many slots are filled, or open.
pub open spec fn slots_count(slots: Seq<MergeSlot>, filled: bool) -> nat
    decreases slots.len(),
{
    if slots.len() == 0 {
        0
    } else {
        slots_count(slots.drop_last(), filled) + if slots.last().filled == filled {
            1nat
        } else {
            0nat
        }
    }
}

pub open spec fn row_of(sq: MergeSquad, merge_enabled: bool) -> MergeRow {
    MergeRow {
        heal: sq.heal,
        structure_dps: sq.structure_dps,
        sheddable_heal: sq.sheddable_heal,
        sheddable_dps: sq.sheddable_dps,
        current_objective: sq.current_objective,
        merge_eligible: sq.merge_eligible,
        sheddable_roles: roles_of(sq.slots@, true),
        open_slot_roles: if merge_enabled && slots_count(sq.slots@, true) > 0 && slots_count(
            sq.slots@,
            false,
        ) > 0 {
            roles_of(sq.slots@, false)
        } else {
            0u8
        },
    }
}

pub open spec fn at_or_zero(s: Seq<u32>, i: int) -> u32 {
    if 0 <= i < s.len() {
        s[i]
    } else {
        0
    }
}

pub open spec fn cell_of(s: MergeFlowScenario, id: u32) -> MergeCell {
    let range = at_or_zero(s.objective_tower_range@, id as int);
    MergeCell {
        id,
        value: s.objective_values@[id as int],
        required_hits: at_or_zero(s.objective_required_hits@, id as int),
        tower_range: if range > 0 {
            Some(range)
        } else {
            None
        },
    }
}

/// The first slot that holds a member of this role.
pub open spec fn first_body(slots: Seq<MergeSlot>, role: u8) -> Option<int>
    decreases slots.len(),
{
    if slots.len() == 0 {
        None
    } else {
        match first_body(slots.drop_last(), role) {
            Some(i) => Some(i),
            None => if slots.last().filled && slots.last().role == role {
                Some(slots.len() - 1)
            } else {
                None
            },
        }
    }
}

/// Two squads' slots in the course of a transfer, and how many members have moved.
#[verifier::ext_equal]
pub struct Transfer {
    pub donor: Seq<MergeSlot>,
    pub receiver: Seq<MergeSlot>,
    pub moved: nat,
}

/// After the receiver's first `n` slots were served: each open one whose role the
/// donor sheds gets the donor's first member of that role, while there is one.
pub open spec fn transferred(
    donor: Seq<MergeSlot>,
    receiver: Seq<MergeSlot>,
    shed: u8,
    n: int,
) -> Transfer
    decreases n,
{
    if n <= 0 {
        Transfer { donor, receiver, moved: 0 }
    } else {
        let t = transferred(donor, receiver, shed, n - 1);
        let slot = receiver[n - 1];
        if !slot.filled && (slot.role & shed) != 0u8 {
            match first_body(t.donor, slot.role) {
                Some(i) => Transfer {
                    donor: t.donor.remove(i),
                    receiver: t.receiver.update(n - 1, MergeSlot { filled: true, ..slot }),
                    moved: t.moved + 1,
                },
                None => t,
            }
        } else {
            t
        }
    }
}

/// The row is matched to a merge that beats staying put.
pub open spec fn merges(
    m: EvMatrix,
    row_to_col: Seq<Option<usize>>,
    stay_base: int,
    r: int,
) -> Option<int> {
    match row_to_col[r] {
        None => None,
        Some(col) => match m.columns@[col as int] {
            ColumnKind::Merge { receiver_row } => {
                let stay = m.cells@[r]@[stay_base + r];
                if m.cells@[r]@[col as int] > if stay > 0 {
                    stay
                } else {
                    0
                } {
                    Some(receiver_row as int)
                } else {
                    None
                }
            },
            _ => None,
        },
    }
}

/// The first row from `from` on that merges.
pub open spec fn first_merge(
    m: EvMatrix,
    row_to_col: Seq<Option<usize>>,
    stay_base: int,
    from: int,
) -> Option<(int, int)>
    decreases row_to_col.len() - from,
{
    if from < 0 || from >= row_to_col.len() {
        None
    } else {
        match merges(m, row_to_col, stay_base, from) {
            Some(to) => Some((from, to)),
            None => first_merge(m, row_to_col, stay_base, from + 1),
        }
    }
}

/// The matching speaks of columns and rows that exist, and matches no squad to a
/// merge with itself.
pub open spec fn mergeable(
    m: EvMatrix,
    row_to_col: Seq<Option<usize>>,
    stay_base: int,
    squads: int,
) -> bool {
    &&& m.wf()
    &&& row_to_col.len() == squads
    &&& m.cells@.len() == squads
    &&& 0 <= stay_base
    &&& stay_base + squads <= m.columns@.len()
    &&& forall|r: int|
        0 <= r < squads ==> ((#[trigger] row_to_col[r]) matches Some(c) ==> c < m.columns@.len()
            && (m.columns@[c as int] matches ColumnKind::Merge { receiver_row } ==> receiver_row
            < squads && receiver_row != r))
}

pub open spec fn slots_counts(sq: MergeSquad) -> (usize, usize) {
    (slots_count(sq.slots@, true) as usize, slots_count(sq.slots@, false) as usize)
}

/// The outcome of the chosen merge, or of none.
pub open spec fn merge_outcome(
    squads: Seq<MergeSquad>,
    chosen: Option<(int, int)>,
    o: MergeOutcome,
) -> bool {
    &&& o.retired@.len() == squads.len()
    &&& o.slots@.len() == squads.len()
    &&& match chosen {
        None => {
            &&& o.merge is None
            &&& forall|k: int| 0 <= k < squads.len() ==> !(#[trigger] o.retired@[k])
            &&& forall|k: int|
                0 <= k < squads.len() ==> #[trigger] o.slots@[k] == slots_counts(squads[k])
        },
        Some((d, t)) => {
            let end = transferred(
                squads[d].slots@,
                squads[t].slots@,
                roles_of(squads[d].slots@, true),
                squads[t].slots@.len() as int,
            );
            &&& o.merge == if end.moved > 0 {
                Some((d as usize, t as usize, end.moved as usize))
            } else {
                None
            }
            &&& forall|k: int|
                0 <= k < squads.len() ==> #[trigger] o.retired@[k] == (k == d && end.moved > 0
                    && slots_count(end.donor, true) == 0)
            &&& forall|k: int|
                0 <= k < squads.len() ==> #[trigger] o.slots@[k] == if k == d {
                    (
                        slots_count(end.donor, true) as usize,
                        slots_count(end.donor, false) as usize,
                    )
                } else if k == t {
                    (
                        slots_count(end.receiver, true) as usize,
                        slots_count(end.receiver, false) as usize,
                    )
                } else {
                    slots_counts(squads[k])
                }
        },
    }
}

proof fn lemma_count_bound(s: Seq<MergeSlot>, filled: bool)
    ensures
        slots_count(s, true) + slots_count(s, false) == s.len(),
        slots_count(s, filled) <= s.len(),
    decreases s.len(),
{
    if s.len() > 0 {
        lemma_count_bound(s.drop_last(), filled);
    }
}

proof fn lemma_count_update(s: Seq<MergeSlot>, i: int, x: MergeSlot)
    requires
        0 <= i < s.len(),
        !s[i].filled,
        x.filled,
    ensures
        slots_count(s.update(i, x), true) == slots_count(s, true) + 1,
        slots_count(s.update(i, x), false) + 1 == slots_count(s, false),
    decreases s.len(),
{
    let u = s.update(i, x);
    if i == s.len() - 1 {
        assert(u.drop_last() =~= s.drop_last());
    } else {
        assert(u.drop_last() =~= s.drop_last().update(i, x));
        lemma_count_update(s.drop_last(), i, x);
    }
}

proof fn lemma_count_remove(s: Seq<MergeSlot>, i: int)
    requires
        0 <= i < s.len(),
        s[i].filled,
    ensures
        slots_count(s.remove(i), true) + 1 == slots_count(s, true),
        slots_count(s.remove(i), false) == slots_count(s, false),
    decreases s.len(),
{
    let u = s.remove(i);
    if i == s.len() - 1 {
        assert(u =~= s.drop_last());
    } else {
        assert(u.drop_last() =~= s.drop_last().remove(i));
        lemma_count_remove(s.drop_last(), i);
    }
}

proof fn lemma_first_body(s: Seq<MergeSlot>, role: u8)
    ensures
        first_body(s, role) matches Some(i) ==> 0 <= i < s.len() && s[i].filled && s[i].role
            == role && forall|j: int|
            0 <= j < i ==> !((#[trigger] s[j]).filled && s[j].role == role),
        first_body(s, role) is None ==> forall|j: int|
            0 <= j < s.len() ==> !((#[trigger] s[j]).filled && s[j].role == role),
    decreases s.len(),
{
    if s.len() > 0 {
        lemma_first_body(s.drop_last(), role);
        assert forall|j: int| 0 <= j < s.len() - 1 implies s[j] == s.drop_last()[j] by {}
    }
}

/// A transfer moves members and loses none: what the donor gives the receiver gets,
/// one open slot filled for each.
pub proof fn transfer_conserves_members(
    donor: Seq<MergeSlot>,
    receiver: Seq<MergeSlot>,
    shed: u8,
    n: int,
)
    requires
        0 <= n <= receiver.len(),
    ensures
        ({
            let t = transferred(donor, receiver, shed, n);
            &&& slots_count(t.donor, true) + t.moved == slots_count(donor, true)
            &&& slots_count(t.donor, false) == slots_count(donor, false)
            &&& slots_count(t.receiver, true) == slots_count(receiver, true) + t.moved
            &&& slots_count(t.receiver, false) + t.moved == slots_count(receiver, false)
            &&& t.receiver.len() == receiver.len()
            &&& t.donor.len() + t.moved == donor.len()
            &&& forall|k: int| n <= k < receiver.len() ==> t.receiver[k] == #[trigger] receiver[k]
        }),
    decreases n,
{
    if n > 0 {
        transfer_conserves_members(donor, receiver, shed, n - 1);
        let t = transferred(donor, receiver, shed, n - 1);
        let slot = receiver[n - 1];
        lemma_first_body(t.donor, slot.role);
        if !slot.filled && (slot.role & shed) != 0u8 && first_body(t.donor, slot.role) is Some {
            let i = first_body(t.donor, slot.role)->0;
            lemma_count_remove(t.donor, i);
            lemma_count_update(t.receiver, n - 1, MergeSlot { filled: true, ..slot });
        }
    }
}

/// A donor whose last member was moved keeps only open slots, and its members are
/// all with the receiver.
pub proof fn emptied_donor_gave_everything(donor: Seq<MergeSlot>, receiver: Seq<MergeSlot>, shed: u8)
    requires
        slots_count(transferred(donor, receiver, shed, receiver.len() as int).donor, true) == 0,
    ensures
        slots_count(
            transferred(donor, receiver, shed, receiver.len() as int).receiver,
            true,
        ) == slots_count(receiver, true) + slots_count(donor, true),
{
    transfer_conserves_members(donor, receiver, shed, receiver.len() as int);
}

fn collect_roles(slots: &Vec<MergeSlot>, filled: bool) -> (r: u8)
    ensures
        r == roles_of(slots@, filled),
{
    let mut acc: u8 = 0;
    let mut i: usize = 0;
    assert(slots@.take(0) =~= Seq::<MergeSlot>::empty());
    while i < slots.len()
        invariant
            i <= slots@.len(),
            acc == roles_of(slots@.take(i as int), filled),
        decreases slots.len() - i,
    {
        assert(slots@.take(i as int + 1).drop_last() =~= slots@.take(i as int));
        if slots[i].filled == filled {
            acc = acc | slots[i].role;
        }
        i = i + 1;
    }
    assert(slots@.take(i as int) =~= slots@);
    acc
}

fn count_slots(slots: &Vec<MergeSlot>, filled: bool) -> (r: usize)
    ensures
        r == slots_count(slots@, filled),
{
    let mut n: usize = 0;
    let mut i: usize = 0;
    assert(slots@.take(0) =~= Seq::<MergeSlot>::empty());
    while i < slots.len()
        invariant
            i <= slots@.len(),
            n <= i,
            n == slots_count(slots@.take(i as int), filled),
        decreases slots.len() - i,
    {
        assert(slots@.take(i as int + 1).drop_last() =~= slots@.take(i as int));
        if slots[i].filled == filled {
            n = n + 1;
        }
        i = i + 1;
    }
    assert(slots@.take(i as int) =~= slots@);
    n
}

impl MergeSquad {
    /// Roles that it still wants.
    pub fn open_slot_roles(&self) -> (r: u8)
        ensures
            r == roles_of(self.slots@, false),
    {
        collect_roles(&self.slots, false)
    }

    /// Roles that it could give away.
    pub fn sheddable_roles(&self) -> (r: u8)
        ensures
            r == roles_of(self.slots@, true),
    {
        collect_roles(&self.slots, true)
    }

    pub fn present_count(&self) -> (r: usize)
        ensures
            r == slots_count(self.slots@, true),
    {
        count_slots(&self.slots, true)
    }

    pub fn open_count(&self) -> (r: usize)
        ensures
            r == slots_count(self.slots@, false),
    {
        count_slots(&self.slots, false)
    }

    /// The squad's row. Open slots are offered only while merging is enabled, by a
    /// squad that has members and still forms.
    pub fn row(&self, merge_enabled: bool) -> (r: MergeRow)
        ensures
            r == row_of(*self, merge_enabled),
    {
        let open_slot_roles: u8 = if merge_enabled && self.present_count() > 0
            && self.open_count() > 0 {
            self.open_slot_roles()
        } else {
            0
        };
        MergeRow {
            heal: self.heal,
            structure_dps: self.structure_dps,
            sheddable_heal: self.sheddable_heal,
            sheddable_dps: self.sheddable_dps,
            current_objective: self.current_objective,
            merge_eligible: self.merge_eligible,
            sheddable_roles: self.sheddable_roles(),
            open_slot_roles,
        }
    }
}

fn get_or_zero(s: &Vec<u32>, i: usize) -> (r: u32)
    ensures
        r == at_or_zero(s@, i as int),
{
    if i < s.len() {
        s[i]
    } else {
        0
    }
}

pub open spec fn strictly_ascending(s: Seq<u32>) -> bool {
    forall|i: int, j: int| 0 <= i < j < s.len() ==> (#[trigger] s[i]) < #[trigger] s[j]
}

/// Inserts an id where it belongs, unless it is there.
fn insert_id(ids: &mut Vec<u32>, id: u32)
    requires
        strictly_ascending(old(ids)@),
    ensures
        strictly_ascending(final(ids)@),
        forall|x: u32| final(ids)@.contains(x) <==> (old(ids)@.contains(x) || x == id),
{
    let ghost before = ids@;
    let mut i: usize = 0;
    while i < ids.len() && ids[i] < id
        invariant
            i <= ids@.len(),
            ids@ == before,
            before == old(ids)@,
            forall|k: int| 0 <= k < i ==> (#[trigger] ids@[k]) < id,
        decreases ids.len() - i,
    {
        i = i + 1;
    }
    if i < ids.len() && ids[i] == id {
        assert(before[i as int] == id);
        return;
    }
    ids.insert(i, id);
    let ghost after = ids@;
    assert(after =~= before.insert(i as int, id));
    assert forall|x: u32| #[trigger] after.contains(x) <==> (before.contains(x) || x == id) by {
        if before.contains(x) {
            let k = choose|k: int| 0 <= k < before.len() && before[k] == x;
            if k < i {
                assert(after[k] == x);
            } else {
                assert(after[k + 1] == x);
            }
        }
        if x == id {
            assert(after[i as int] == x);
        }
        if after.contains(x) && x != id {
            let k = choose|k: int| 0 <= k < after.len() && after[k] == x;
            if k < i {
                assert(before[k] == x);
            } else {
                assert(before[k - 1] == x);
            }
        }
    }
}

impl MergeFlowScenario {
    /// The ids of the squads' objectives, each once, ascending.
    pub fn objective_ids(&self) -> (r: Vec<u32>)
        ensures
            strictly_ascending(r@),
            forall|x: u32|
                r@.contains(x) <==> exists|k: int|
                    0 <= k < self.squads@.len() && (#[trigger] self.squads@[k]).current_objective
                        == x,
    {
        let mut ids: Vec<u32> = Vec::new();
        let mut i: usize = 0;
        while i < self.squads.len()
            invariant
                i <= self.squads@.len(),
                strictly_ascending(ids@),
                forall|x: u32|
                    ids@.contains(x) <==> exists|k: int|
                        0 <= k < i && (#[trigger] self.squads@[k]).current_objective == x,
            decreases self.squads.len() - i,
        {
            let ghost before = ids@;
            insert_id(&mut ids, self.squads[i].current_objective);
            assert forall|x: u32|
                ids@.contains(x) <==> exists|k: int|
                    0 <= k < i + 1 && (#[trigger] self.squads@[k]).current_objective == x by {
                if before.contains(x) {
                    let k = choose|k: int|
                        0 <= k < i && (#[trigger] self.squads@[k]).current_objective == x;
                    assert(self.squads@[k].current_objective == x);
                }
                assert(self.squads@[i as int].current_objective
                    == self.squads@[i as int].current_objective);
            }
            i = i + 1;
        }
        ids
    }

    /// Every squad's row, in order.
    pub fn rows(&self) -> (r: Vec<MergeRow>)
        ensures
            r@ == Seq::new(
                self.squads@.len(),
                |k: int| row_of(self.squads@[k], self.merge_enabled),
            ),
    {
        let ghost want = Seq::new(
            self.squads@.len(),
            |k: int| row_of(self.squads@[k], self.merge_enabled),
        );
        let mut out: Vec<MergeRow> = Vec::new();
        let mut i: usize = 0;
        while i < self.squads.len()
            invariant
                i <= self.squads@.len(),
                want == Seq::new(
                    self.squads@.len(),
                    |k: int| row_of(self.squads@[k], self.merge_enabled),
                ),
                out@ == want.take(i as int),
            decreases self.squads.len() - i,
        {
            out.push(self.squads[i].row(self.merge_enabled));
            i = i + 1;
            assert(out@ =~= want.take(i as int));
        }
        assert(out@ =~= want);
        out
    }

    /// An objective's cell: its value, and the defense that its entries describe.
    pub fn objective_cell(&self, id: u32) -> (r: MergeCell)
        requires
            id < self.objective_values@.len(),
        ensures
            r == cell_of(*self, id),
    {
        let i: usize = id as usize;
        let range: u32 = get_or_zero(&self.objective_tower_range, i);
        let tower_range: Option<u32> = if range > 0 {
            Some(range)
        } else {
            None
        };
        MergeCell {
            id,
            value: self.objective_values[i],
            required_hits: get_or_zero(&self.objective_required_hits, i),
            tower_range,
        }
    }

    /// Carries out the first merge of the matching that beats staying put.
    pub fn run_merge_flow(&self, m: &EvMatrix, sol: &AssignmentSolution, stay_base: usize) -> (o:
        MergeOutcome)
        requires
            mergeable(*m, sol.row_to_col@, stay_base as int, self.squads@.len() as int),
        ensures
            merge_outcome(
                self.squads@,
                first_merge(*m, sol.row_to_col@, stay_base as int, 0),
                o,
            ),
    {
        let n: usize = self.squads.len();
        let ghost all = first_merge(*m, sol.row_to_col@, stay_base as int, 0);
        let mut r: usize = 0;
        while r < n
            invariant
                n == self.squads@.len(),
                r <= n,
                mergeable(*m, sol.row_to_col@, stay_base as int, n as int),
                all == first_merge(*m, sol.row_to_col@, stay_base as int, 0),
                all == first_merge(*m, sol.row_to_col@, stay_base as int, r as int),
            decreases n - r,
        {
            if let Some(to) = merge_target(m, &sol.row_to_col, stay_base, r) {
                return self.apply(r, to);
            }
            r = r + 1;
        }
        let mut retired: Vec<bool> = Vec::new();
        let mut slots: Vec<(usize, usize)> = Vec::new();
        let mut k: usize = 0;
        while k < n
            invariant
                n == self.squads@.len(),
                k <= n,
                retired@.len() == k,
                slots@.len() == k,
                forall|j: int| 0 <= j < k ==> !(#[trigger] retired@[j]),
                forall|j: int|
                    0 <= j < k ==> #[trigger] slots@[j] == slots_counts(self.squads@[j]),
            decreases n - k,
        {
            retired.push(false);
            slots.push((self.squads[k].present_count(), self.squads[k].open_count()));
            k = k + 1;
        }
        MergeOutcome { retired, slots, merge: None }
    }

    fn apply(&self, d: usize, to: usize) -> (o: MergeOutcome)
        requires
            d < self.squads@.len(),
            to < self.squads@.len(),
            d != to,
        ensures
            merge_outcome(self.squads@, Some((d as int, to as int)), o),
    {
        let ghost donor0 = self.squads@[d as int].slots@;
        let ghost recv0 = self.squads@[to as int].slots@;
        let shed: u8 = self.squads[d].sheddable_roles();
        let (donor, receiver, moved) = transfer(
            &self.squads[d].slots,
            &self.squads[to].slots,
            shed,
        );
        let emptied: bool = count_slots(&donor, true) == 0;
        let mut retired: Vec<bool> = Vec::new();
        let mut slots: Vec<(usize, usize)> = Vec::new();
        let mut k: usize = 0;
        let ghost end = transferred(donor0, recv0, shed, recv0.len() as int);
        while k < self.squads.len()
            invariant
                k <= self.squads@.len(),
                d < self.squads@.len(),
                to < self.squads@.len(),
                d != to,
                donor@ == end.donor,
                receiver@ == end.receiver,
                moved == end.moved,
                emptied == (slots_count(end.donor, true) == 0),
                retired@.len() == k,
                slots@.len() == k,
                forall|j: int|
                    0 <= j < k ==> #[trigger] retired@[j] == (j == d && end.moved > 0 && slots_count(
                        end.donor,
                        true,
                    ) == 0),
                forall|j: int|
                    0 <= j < k ==> #[trigger] slots@[j] == if j == d {
                        (
                            slots_count(end.donor, true) as usize,
                            slots_count(end.donor, false) as usize,
                        )
                    } else if j == to {
                        (
                            slots_count(end.receiver, true) as usize,
                            slots_count(end.receiver, false) as usize,
                        )
                    } else {
                        slots_counts(self.squads@[j])
                    },
            decreases self.squads.len() - k,
        {
            retired.push(k == d && moved > 0 && emptied);
            if k == d {
                slots.push((count_slots(&donor, true), count_slots(&donor, false)));
            } else if k == to {
                slots.push((count_slots(&receiver, true), count_slots(&receiver, false)));
            } else {
                slots.push((self.squads[k].present_count(), self.squads[k].open_count()));
            }
            k = k + 1;
        }
        let merge: Option<(usize, usize, usize)> = if moved > 0 {
            Some((d, to, moved))
        } else {
            None
        };
        MergeOutcome { retired, slots, merge }
    }
}

fn merge_target(m: &EvMatrix, row_to_col: &Vec<Option<usize>>, stay_base: usize, r: usize) -> (t:
    Option<usize>)
    requires
        mergeable(*m, row_to_col@, stay_base as int, row_to_col@.len() as int),
        r < row_to_col@.len(),
    ensures
        (match t {
            Some(to) => Some(to as int),
            None => None,
        }) == merges(*m, row_to_col@, stay_base as int, r as int),
        t matches Some(to) ==> to < row_to_col@.len() && to != r,
{
    match row_to_col[r] {
        None => None,
        Some(col) => {
            assert(m.cells@[r as int]@.len() == m.columns@.len());
            assert(row_to_col@[r as int] is Some);
            match m.columns[col] {
                ColumnKind::Merge { receiver_row } => {
                    let row: &Vec<i64> = &m.cells[r];
                    let width: usize = row.len();
                    assert(stay_base + r < width);
                    let stay: i64 = row[stay_base + r];
                    let floor: i64 = if stay > 0 {
                        stay
                    } else {
                        0
                    };
                    if m.cells[r][col] > floor {
                        Some(receiver_row)
                    } else {
                        None
                    }
                },
                _ => None,
            }
        },
    }
}

fn find_body(slots: &Vec<MergeSlot>, role: u8) -> (r: Option<usize>)
    ensures
        (match r {
            Some(i) => Some(i as int),
            None => None,
        }) == first_body(slots@, role),
        r matches Some(i) ==> i < slots@.len(),
{
    let mut i: usize = 0;
    proof {
        lemma_first_body(slots@, role);
    }
    while i < slots.len()
        invariant
            i <= slots@.len(),
            forall|j: int| 0 <= j < i ==> !((#[trigger] slots@[j]).filled && slots@[j].role == role),
        decreases slots.len() - i,
    {
        if slots[i].filled && slots[i].role == role {
            proof {
                lemma_first_body(slots@, role);
            }
            return Some(i);
        }
        i = i + 1;
    }
    None
}

fn transfer(donor0: &Vec<MergeSlot>, receiver0: &Vec<MergeSlot>, shed: u8) -> (r: (
    Vec<MergeSlot>,
    Vec<MergeSlot>,
    usize,
))
    ensures
        ({
            let end = transferred(donor0@, receiver0@, shed, receiver0@.len() as int);
            r.0@ == end.donor && r.1@ == end.receiver && r.2 == end.moved
        }),
{
    let mut donor: Vec<MergeSlot> = copied(donor0);
    let mut receiver: Vec<MergeSlot> = copied(receiver0);
    let mut moved: usize = 0;
    let mut i: usize = 0;
    while i < receiver0.len()
        invariant
            i <= receiver0@.len(),
            receiver@.len() == receiver0@.len(),
            moved <= i,
            donor@ == transferred(donor0@, receiver0@, shed, i as int).donor,
            receiver@ == transferred(donor0@, receiver0@, shed, i as int).receiver,
            moved == transferred(donor0@, receiver0@, shed, i as int).moved,
        decreases receiver0.len() - i,
    {
        let slot: MergeSlot = receiver0[i];
        if !slot.filled && (slot.role & shed) != 0u8 {
            if let Some(b) = find_body(&donor, slot.role) {
                let _gone: MergeSlot = donor.remove(b);
                receiver.set(i, MergeSlot { role: slot.role, filled: true });
                moved = moved + 1;
            }
        }
        i = i + 1;
    }
    (donor, receiver, moved)
}

// ── What a merge goes by ───────────────────────────────────────────────────

/// One more slot adds its role to the filled or to the open ones, and counts there alone.
pub proof fn one_more_slot_adds_its_role(slots: Seq<MergeSlot>, x: MergeSlot)
    ensures
        roles_of(slots.push(x), x.filled) == roles_of(slots, x.filled) | x.role,
        roles_of(slots.push(x), !x.filled) == roles_of(slots, !x.filled),
        slots_count(slots.push(x), x.filled) == slots_count(slots, x.filled) + 1,
        slots_count(slots.push(x), !x.filled) == slots_count(slots, !x.filled),
        roles_of(seq![], true) == 0 && roles_of(seq![], false) == 0,
        slots_count(seq![], true) == 0 && slots_count(seq![], false) == 0,
{
    assert(slots.push(x).drop_last() =~= slots);
}

/// A squad offers its open slots only while merging is on, and only if it has members and
/// still forms; what it could give away it always shows.
pub proof fn open_slots_are_offered_while_merging(sq: MergeSquad, on: bool)
    ensures
        row_of(sq, on).sheddable_roles == roles_of(sq.slots@, true),
        !on ==> row_of(sq, on).open_slot_roles == 0,
        slots_count(sq.slots@, true) == 0 ==> row_of(sq, on).open_slot_roles == 0,
        slots_count(sq.slots@, false) == 0 ==> row_of(sq, on).open_slot_roles == 0,
        on && slots_count(sq.slots@, true) >= 1 && slots_count(sq.slots@, false) >= 1 ==> row_of(
            sq,
            on,
        ).open_slot_roles == roles_of(sq.slots@, false),
        row_of(sq, on).heal == sq.heal && row_of(sq, on).structure_dps == sq.structure_dps,
        row_of(sq, on).sheddable_heal == sq.sheddable_heal && row_of(sq, on).sheddable_dps
            == sq.sheddable_dps,
        row_of(sq, on).current_objective == sq.current_objective && row_of(sq, on).merge_eligible
            == sq.merge_eligible,
{
}

/// An objective's cell has its value; a tower where its range is not zero; and no defense
/// where its entries are missing.
pub proof fn a_cell_shows_its_defense(s: MergeFlowScenario, id: u32)
    ensures
        cell_of(s, id).id == id && cell_of(s, id).value == s.objective_values@[id as int],
        id < s.objective_required_hits@.len() ==> cell_of(s, id).required_hits
            == s.objective_required_hits@[id as int],
        id >= s.objective_required_hits@.len() ==> cell_of(s, id).required_hits == 0,
        id < s.objective_tower_range@.len() && s.objective_tower_range@[id as int] >= 1 ==> cell_of(
            s,
            id,
        ).tower_range == Some(s.objective_tower_range@[id as int]),
        id < s.objective_tower_range@.len() && s.objective_tower_range@[id as int] == 0 ==> cell_of(
            s,
            id,
        ).tower_range is None,
        id >= s.objective_tower_range@.len() ==> cell_of(s, id).tower_range is None,
{
}

/// An open slot is filled exactly where its role is shed and the donor has a member of that
/// very role left; the first such member leaves. A slot that is filled takes nobody.
pub proof fn an_open_slot_takes_its_role(
    donor: Seq<MergeSlot>,
    receiver: Seq<MergeSlot>,
    shed: u8,
    n: int,
    j: int,
)
    requires
        0 <= n < receiver.len(),
    ensures
        ({
            let t = transferred(donor, receiver, shed, n);
            let u = transferred(donor, receiver, shed, n + 1);
            let slot = receiver[n];
            &&& slot.filled ==> u == t
            &&& slot.role & shed == 0 ==> u == t
            &&& !slot.filled && slot.role & shed != 0 && 0 <= j < t.donor.len() && t.donor[j].filled
                && t.donor[j].role == slot.role ==> {
                &&& u.moved == t.moved + 1
                &&& u.receiver == t.receiver.update(
                    n,
                    MergeSlot { role: slot.role, filled: true },
                )
                &&& u.donor.len() == t.donor.len() - 1
                &&& exists|i: int|
                    0 <= i <= j && (#[trigger] t.donor[i]).filled && t.donor[i].role == slot.role
                        && u.donor == t.donor.remove(i)
            }
            &&& (forall|i: int|
                0 <= i < t.donor.len() ==> !((#[trigger] t.donor[i]).filled && t.donor[i].role
                    == slot.role)) ==> u == t
        }),
{
    let t = transferred(donor, receiver, shed, n);
    lemma_first_body(t.donor, receiver[n].role);
    if first_body(t.donor, receiver[n].role) is Some {
        let i = first_body(t.donor, receiver[n].role)->0;
        assert(t.donor[i].filled);
    }
}

/// A row merges only where its matched merge is worth more than staying put and more than
/// nothing; as much is not enough.
pub proof fn a_merge_beats_staying(
    m: EvMatrix,
    row_to_col: Seq<Option<usize>>,
    stay_base: int,
    r: int,
    to: int,
)
    ensures
        row_to_col[r] is None ==> merges(m, row_to_col, stay_base, r) is None,
        row_to_col[r] matches Some(c) && !(m.columns@[c as int] is Merge) ==> merges(
            m,
            row_to_col,
            stay_base,
            r,
        ) is None,
        row_to_col[r] matches Some(c) && m.cells@[r]@[c as int] <= m.cells@[r]@[stay_base + r]
            ==> merges(m, row_to_col, stay_base, r) is None,
        row_to_col[r] matches Some(c) && m.cells@[r]@[c as int] <= 0 ==> merges(
            m,
            row_to_col,
            stay_base,
            r,
        ) is None,
        row_to_col[r] matches Some(c) && m.cells@[r]@[c as int] > m.cells@[r]@[stay_base + r]
            && m.cells@[r]@[c as int] > 0 && (m.columns@[c as int] matches ColumnKind::Merge {
            receiver_row,
        } && receiver_row == to) ==> merges(m, row_to_col, stay_base, r) == Some(to),
{
}

/// The merge that is carried out is that of the first row that merges.
pub proof fn the_first_merging_row_merges(
    m: EvMatrix,
    row_to_col: Seq<Option<usize>>,
    stay_base: int,
    from: int,
    r: int,
)
    requires
        0 <= from <= r < row_to_col.len(),
        forall|k: int|
            from <= k < r ==> (#[trigger] merges(m, row_to_col, stay_base, k)) is None,
    ensures
        merges(m, row_to_col, stay_base, r) matches Some(to) ==> first_merge(
            m,
            row_to_col,
            stay_base,
            from,
        ) == Some((r, to)),
        r == row_to_col.len() - 1 && merges(m, row_to_col, stay_base, r) is None ==> first_merge(
            m,
            row_to_col,
            stay_base,
            from,
        ) is None,
    decreases r - from,
{
    if from < r {
        assert(merges(m, row_to_col, stay_base, from) is None);
        the_first_merging_row_merges(m, row_to_col, stay_base, from + 1, r);
    } else {
        assert(first_merge(m, row_to_col, stay_base, row_to_col.len() as int) is None);
    }
}

/// A merge keeps the members that there are: what the squads had together they have
/// together, a donor retires exactly when its last member moved, and squads that take no part
/// stay as they were.
pub proof fn a_merge_keeps_the_members(
    squads: Seq<MergeSquad>,
    d: int,
    t: int,
    o: MergeOutcome,
    k: int,
)
    requires
        0 <= d < squads.len(),
        0 <= t < squads.len(),
        d != t,
        0 <= k < squads.len(),
        squads.len() <= usize::MAX,
        squads[d].slots@.len() + squads[t].slots@.len() <= usize::MAX,
        merge_outcome(squads, Some((d, t)), o),
    ensures
        o.slots@[d].0 + o.slots@[t].0 == slots_count(squads[d].slots@, true) + slots_count(
            squads[t].slots@,
            true,
        ),
        o.merge matches Some((from, to, moved)) ==> from == d && to == t && moved >= 1
            && o.slots@[d].0 + moved == slots_count(squads[d].slots@, true) && o.slots@[t].1
            + moved == slots_count(squads[t].slots@, false),
        o.retired@[k] <==> k == d && o.merge is Some && o.slots@[d].0 == 0,
        k != d && k != t ==> o.slots@[k] == slots_counts(squads[k]),
{
    let shed = roles_of(squads[d].slots@, true);
    let n = squads[t].slots@.len() as int;
    transfer_conserves_members(squads[d].slots@, squads[t].slots@, shed, n);
    lemma_count_bound(squads[d].slots@, true);
    lemma_count_bound(squads[t].slots@, true);
    lemma_count_bound(squads[t].slots@, false);
    let end = transferred(squads[d].slots@, squads[t].slots@, shed, n);
    lemma_count_bound(end.donor, true);
    lemma_count_bound(end.receiver, true);
    lemma_count_bound(end.receiver, false);
    assert(o.slots@[d] == (
        slots_count(end.donor, true) as usize,
        slots_count(end.donor, false) as usize,
    ));
    assert(o.slots@[t] == (
        slots_count(end.receiver, true) as usize,
        slots_count(end.receiver, false) as usize,
    ));
    assert(o.retired@[k] == (k == d && end.moved > 0 && slots_count(end.donor, true) == 0));
    assert(k != d && k != t ==> o.slots@[k] == slots_counts(squads[k]));
}

/// A tower is as full as it gets.
pub proof fn a_tower_is_full(energy: int)
    ensures
        energy <= TOWER_ENERGY <==> energy <= 1000,
{
}

} // verus!
