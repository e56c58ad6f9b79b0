//! Many squads against many objectives: the per-squad greedy choice over an EV
//! matrix, and what a global assignment over the same matrix picks.

use vstd::prelude::*;

verus! {

/// What a column of the matrix stands for.
#[derive(Clone, Copy, Debug, PartialEq, Eq, Structural)]
pub enum ColumnKind {
    /// Take the objective with this id.
    Objective { id: u32 },
    StayPut,
    Recycle,
    /// Hand members over to the squad of this row.
    Merge { receiver_row: usize },
}

/// The expected value of every choice: one row per squad, one column per choice.
#[derive(Debug)]
pub struct EvMatrix {
    pub columns: Vec<ColumnKind>,
    pub cells: Vec<Vec<i64>>,
    /// The value that marks a choice a squad cannot make.
    pub infeasible: i64,
}

/// How much a squad's front is taken to withstand.
pub const TANK_HP: u32 = 2000;

/// An assignable squad.
#[derive(Clone, Copy, Debug)]
pub struct AuctionSquad {
    pub structure_dps: u32,
    pub heal: u32,
    pub current_objective: Option<u32>,
}

/// An objective on offer. Its value is the bit pattern of a float.
#[derive(Clone, Debug)]
pub struct AuctionObjective {
    pub id: u32,
    pub value: u32,
    /// Which squads can take it; empty if all can.
    pub feasible_per_row: Vec<bool>,
}

/// An assignment scenario.
#[derive(Clone, Debug)]
pub struct AuctionFlowScenario {
    pub squads: Vec<AuctionSquad>,
    pub objectives: Vec<AuctionObjective>,
    /// Solve globally; else each squad in turn takes its best.
    pub global_solve: bool,
}

/// A global assignment: for each row the column it is matched to.
#[derive(Debug)]
pub struct AssignmentSolution {
    pub row_to_col: Vec<Option<usize>>,
    pub total_ev: i64,
}

/// What an assignment comes to.
#[derive(Clone, Debug, PartialEq, Eq)]
pub struct AuctionOutcome {
    pub total_ev: i64,
    /// For each squad the objective it takes.
    pub picks: Vec<Option<u32>>,
}

impl AssignmentSolution {
    /// The matched columns as numbers.
    pub open spec fn cols(self) -> Seq<Option<int>> {
        Seq::new(
            self.row_to_col@.len(),
            |r: int|
                match self.row_to_col@[r] {
                    Some(c) => Some(c as int),
                    None => None,
                },
        )
    }
}

/// The squad of row `r` can take the objective.
pub open spec fn can_take(o: AuctionObjective, r: int) -> bool {
    o.feasible_per_row@.len() > 0 ==> o.feasible_per_row@[r]
}

/// The columns that a scenario's squads choose.
pub open spec fn chosen(s: AuctionFlowScenario, m: EvMatrix, sol: AssignmentSolution) -> Seq<
    Option<int>,
> {
    if s.global_solve {
        sol.cols()
    } else {
        m.greedy_cols()
    }
}

/// What a scenario comes to over its matrix.
pub open spec fn is_auctioned(
    s: AuctionFlowScenario,
    m: EvMatrix,
    sol: AssignmentSolution,
    o: AuctionOutcome,
) -> bool {
    if s.global_solve {
        m.global_outcome(sol, o)
    } else {
        m.greedy_outcome(o)
    }
}

impl EvMatrix {
    pub open spec fn wf(self) -> bool {
        forall|r: int|
            0 <= r < self.cells@.len() ==> (#[trigger] self.cells@[r])@.len()
                == self.columns@.len()
    }

    /// A squad may choose this column while `covered` objectives are taken.
    pub open spec fn open_to(self, covered: Seq<bool>, r: int, c: int) -> bool {
        &&& !(self.columns@[c] is Objective && covered[c])
        &&& self.cells@[r]@[c] != self.infeasible
    }

    /// The first best column among the first `n`.
    pub open spec fn best_col(self, covered: Seq<bool>, r: int, n: int) -> Option<int>
        decreases n,
    {
        if n <= 0 {
            None
        } else {
            let before = self.best_col(covered, r, n - 1);
            if !self.open_to(covered, r, n - 1) {
                before
            } else {
                match before {
                    Some(b) if self.cells@[r]@[n - 1] <= self.cells@[r]@[b] => before,
                    _ => Some(n - 1),
                }
            }
        }
    }

    /// The columns that the first `n` squads choose in turn, and what is covered then.
    pub open spec fn greedy(self, n: int) -> (Seq<Option<int>>, Seq<bool>)
        decreases n,
    {
        if n <= 0 {
            (seq![], Seq::new(self.columns@.len(), |c: int| false))
        } else {
            let (cols, covered) = self.greedy(n - 1);
            let col = self.best_col(covered, n - 1, self.columns@.len() as int);
            (
                cols.push(col),
                match col {
                    Some(c) if self.columns@[c] is Objective => covered.update(c, true),
                    _ => covered,
                },
            )
        }
    }

    /// What the first `n` choices of `cols` add up to.
    pub open spec fn total(self, cols: Seq<Option<int>>, n: int) -> int
        decreases n,
    {
        if n <= 0 {
            0
        } else {
            self.total(cols, n - 1) + match cols[n - 1] {
                Some(c) => self.cells@[n - 1]@[c] as int,
                None => 0,
            }
        }
    }

    /// The objective a column stands for.
    pub open spec fn pick(self, col: Option<int>) -> Option<u32> {
        match col {
            Some(c) => match self.columns@[c] {
                ColumnKind::Objective { id } => Some(id),
                _ => None,
            },
            None => None,
        }
    }

    pub open spec fn greedy_cols(self) -> Seq<Option<int>> {
        self.greedy(self.cells@.len() as int).0
    }

    /// The running total fits throughout.
    pub open spec fn greedy_fits(self) -> bool {
        forall|n: int|
            0 <= n <= self.cells@.len() ==> i64::MIN <= #[trigger] self.total(
                self.greedy(n).0,
                n,
            ) <= i64::MAX
    }

    pub open spec fn greedy_outcome(self, o: AuctionOutcome) -> bool {
        &&& o.total_ev == self.total(self.greedy_cols(), self.cells@.len() as int)
        &&& o.picks@ == Seq::new(self.cells@.len(), |r: int| self.pick(self.greedy_cols()[r]))
    }

    pub open spec fn global_outcome(self, sol: AssignmentSolution, o: AuctionOutcome) -> bool {
        &&& o.total_ev == sol.total_ev
        &&& o.picks@ == Seq::new(sol.row_to_col@.len(), |r: int| self.pick(sol.cols()[r]))
    }

    /// One choice per squad that it can make, and no objective chosen twice.
    pub open spec fn matching(self, cols: Seq<Option<int>>) -> bool {
        &&& cols.len() == self.cells@.len()
        &&& forall|r: int|
            0 <= r < cols.len() ==> ((#[trigger] cols[r]) matches Some(c) ==> 0 <= c
                < self.columns@.len() && self.cells@[r]@[c] != self.infeasible)
        &&& forall|i: int, j: int|
            0 <= i < j < cols.len() && (#[trigger] cols[i]) is Some && cols[i] == (
            #[trigger] cols[j]) ==> !(self.columns@[cols[i]->0] is Objective)
    }

    /// The assignment is a matching, and none is worth more.
    pub open spec fn best_matching(self, sol: AssignmentSolution) -> bool {
        &&& self.matching(sol.cols())
        &&& sol.total_ev == self.total(sol.cols(), self.cells@.len() as int)
        &&& forall|cols: Seq<Option<int>>| #[trigger]
            self.matching(cols) ==> self.total(cols, self.cells@.len() as int) <= sol.total_ev
    }

    /// Each objective has one column.
    pub open spec fn distinct_objectives(self) -> bool {
        forall|c: int, d: int|
            0 <= c < d < self.columns@.len() && self.columns@[c] is Objective ==> (
            #[trigger] self.columns@[c]) != (#[trigger] self.columns@[d])
    }

    /// One row per squad of the scenario, and every objective that a squad cannot take
    /// marked so in its row.
    pub open spec fn scores(self, s: AuctionFlowScenario) -> bool {
        &&& self.cells@.len() == s.squads@.len()
        &&& forall|r: int, c: int, k: int|
            #![trigger self.cells@[r]@[c], s.objectives@[k]]
            0 <= r < s.squads@.len() && 0 <= c < self.columns@.len() && 0 <= k
                < s.objectives@.len() && self.columns@[c] == (ColumnKind::Objective {
                id: s.objectives@[k].id,
            }) && !can_take(s.objectives@[k], r) ==> self.cells@[r]@[c] == self.infeasible
    }

    /// Every matched column exists.
    pub open spec fn solved_by(self, sol: AssignmentSolution) -> bool {
        forall|r: int|
            0 <= r < sol.row_to_col@.len() ==> ((#[trigger] sol.row_to_col@[r]) matches Some(c)
                ==> c < self.columns@.len())
    }
}

proof fn lemma_total_reads_its_own(m: EvMatrix, a: Seq<Option<int>>, b: Seq<Option<int>>, n: int)
    requires
        0 <= n <= a.len(),
        n <= b.len(),
        forall|r: int| 0 <= r < n ==> a[r] == #[trigger] b[r],
    ensures
        m.total(a, n) == m.total(b, n),
    decreases n,
{
    if n > 0 {
        lemma_total_reads_its_own(m, a, b, n - 1);
    }
}

proof fn lemma_greedy_prefix(m: EvMatrix, k: int, n: int)
    requires
        0 <= k <= n,
    ensures
        m.greedy(n).0.len() == n,
        m.greedy(n).1.len() == m.columns@.len(),
        m.greedy(n).0.take(k) == m.greedy(k).0,
    decreases n,
{
    if n > 0 {
        lemma_greedy_prefix(m, if k < n {
            k
        } else {
            n - 1
        }, n - 1);
        lemma_best_col(m, m.greedy(n - 1).1, n - 1, m.columns@.len() as int);
        if k < n {
            assert(m.greedy(n).0.take(k) =~= m.greedy(n - 1).0.take(k));
        } else {
            assert(m.greedy(n).0.take(n) =~= m.greedy(n).0);
        }
    } else {
        assert(m.greedy(0).0.take(0) =~= m.greedy(0).0);
    }
}

proof fn lemma_best_col(m: EvMatrix, covered: Seq<bool>, r: int, n: int)
    requires
        0 <= n,
    ensures
        m.best_col(covered, r, n) matches Some(b) ==> 0 <= b < n && m.open_to(covered, r, b)
            && forall|c: int|
            0 <= c < n && #[trigger] m.open_to(covered, r, c) ==> m.cells@[r]@[c]
                <= m.cells@[r]@[b],
        m.best_col(covered, r, n) is None ==> forall|c: int|
            0 <= c < n ==> !#[trigger] m.open_to(covered, r, c),
    decreases n,
{
    if n > 0 {
        lemma_best_col(m, covered, r, n - 1);
    }
}

/// Each squad's greedy choice is the best that was open to it when its turn came.
pub proof fn greedy_takes_the_best_left(m: EvMatrix, r: int, c: int)
    requires
        0 <= r < m.cells@.len(),
        0 <= c < m.columns@.len(),
        m.open_to(m.greedy(r).1, r, c),
    ensures
        m.greedy(r + 1).0[r] matches Some(b) && m.cells@[r]@[c] <= m.cells@[r]@[b],
{
    lemma_best_col(m, m.greedy(r).1, r, m.columns@.len() as int);
    lemma_greedy_prefix(m, r, r);
}

/// No two squads greedily take the same objective column.
pub proof fn greedy_covers_an_objective_once(m: EvMatrix, n: int, i: int, j: int)
    requires
        0 <= i < j < n,
        m.greedy(n).0[i] is Some,
        m.greedy(n).0[i] == m.greedy(n).0[j],
    ensures
        !(m.columns@[m.greedy(n).0[i]->0] is Objective),
{
    lemma_greedy_prefix(m, j, n);
    lemma_greedy_prefix(m, j + 1, n);
    lemma_greedy_prefix(m, i + 1, n);
    assert(m.greedy(n).0[i] == m.greedy(n).0.take(i + 1)[i]);
    assert(m.greedy(n).0[j] == m.greedy(n).0.take(j + 1)[j]);
    lemma_covered_stays(m, i + 1, j);
    lemma_greedy_prefix(m, i, i);
    lemma_greedy_prefix(m, j, j);
    lemma_best_col(m, m.greedy(i).1, i, m.columns@.len() as int);
    lemma_best_col(m, m.greedy(j).1, j, m.columns@.len() as int);
}

proof fn lemma_covered_stays(m: EvMatrix, k: int, n: int)
    requires
        0 <= k <= n,
    ensures
        forall|c: int|
            0 <= c < m.columns@.len() && m.greedy(k).1[c] ==> #[trigger] m.greedy(n).1[c],
    decreases n - k,
{
    if k < n {
        lemma_covered_stays(m, k, n - 1);
        lemma_greedy_prefix(m, n - 1, n - 1);
        lemma_best_col(m, m.greedy(n - 1).1, n - 1, m.columns@.len() as int);
        assert forall|c: int| 0 <= c < m.columns@.len() && m.greedy(k).1[c] implies
            #[trigger] m.greedy(n).1[c] by {
            assert(m.greedy(n - 1).1[c]);
        }
    }
}

/// The greedy choices are a matching.
pub proof fn greedy_is_a_matching(m: EvMatrix)
    ensures
        m.matching(m.greedy_cols()),
{
    let n = m.cells@.len() as int;
    let cols = m.greedy_cols();
    lemma_greedy_prefix(m, n, n);
    assert forall|r: int| 0 <= r < cols.len() implies ((#[trigger] cols[r]) matches Some(c) ==> 0
        <= c < m.columns@.len() && m.cells@[r]@[c] != m.infeasible) by {
        lemma_greedy_prefix(m, r + 1, n);
        lemma_greedy_prefix(m, r, r);
        assert(cols[r] == cols.take(r + 1)[r]);
        lemma_best_col(m, m.greedy(r).1, r, m.columns@.len() as int);
    }
    assert forall|i: int, j: int|
        0 <= i < j < cols.len() && (#[trigger] cols[i]) is Some && cols[i] == (
        #[trigger] cols[j]) implies !(m.columns@[cols[i]->0] is Objective) by {
        greedy_covers_an_objective_once(m, n, i, j);
    }
}

/// Where the assignment is a best matching, solving globally is worth at least what the
/// greedy choice is.
pub proof fn global_is_worth_the_greedy(
    m: EvMatrix,
    sol: AssignmentSolution,
    global: AuctionOutcome,
    greedy: AuctionOutcome,
)
    requires
        m.best_matching(sol),
        m.global_outcome(sol, global),
        m.greedy_outcome(greedy),
    ensures
        global.total_ev >= greedy.total_ev,
{
    greedy_is_a_matching(m);
}

/// There is one pick per squad, no objective is picked by two squads, and none by a squad
/// that cannot take it.
pub proof fn auction_picks_are_sound(
    s: AuctionFlowScenario,
    m: EvMatrix,
    sol: AssignmentSolution,
    o: AuctionOutcome,
)
    requires
        m.scores(s),
        m.distinct_objectives(),
        s.global_solve ==> m.matching(sol.cols()),
        is_auctioned(s, m, sol, o),
    ensures
        o.picks@.len() == s.squads@.len(),
        forall|i: int, j: int|
            0 <= i < j < o.picks@.len() && (#[trigger] o.picks@[i]) is Some ==> o.picks@[i] != (
            #[trigger] o.picks@[j]),
        forall|r: int, k: int|
            0 <= r < o.picks@.len() && 0 <= k < s.objectives@.len() && (#[trigger] o.picks@[r])
                == Some((#[trigger] s.objectives@[k]).id) ==> can_take(s.objectives@[k], r),
{
    greedy_is_a_matching(m);
    let cols = chosen(s, m, sol);
    assert(m.matching(cols));
    assert forall|r: int| 0 <= r < o.picks@.len() implies (#[trigger] o.picks@[r]) == m.pick(
        cols[r],
    ) by {}
    assert forall|i: int, j: int|
        0 <= i < j < o.picks@.len() && (#[trigger] o.picks@[i]) is Some implies o.picks@[i] != (
    #[trigger] o.picks@[j]) by {
        let (a, b) = (cols[i], cols[j]);
        if o.picks@[j] is Some {
            let (c, d) = (a->0, b->0);
            assert(m.columns@[c] is Objective && m.columns@[d] is Objective);
            assert(c != d);
            assert(m.columns@[c] != m.columns@[d]);
        }
    }
    assert forall|r: int, k: int|
        0 <= r < o.picks@.len() && 0 <= k < s.objectives@.len() && (#[trigger] o.picks@[r])
            == Some((#[trigger] s.objectives@[k]).id) implies can_take(s.objectives@[k], r) by {
        let c = cols[r]->0;
        assert(cols[r] is Some);
        assert(m.cells@[r]@[c] != m.infeasible);
    }
}

/// Which squads can take an objective, with the default spelled out.
pub fn feasible_rows(o: &AuctionObjective, rows: usize) -> (r: Vec<bool>)
    ensures
        forall|i: int| 0 <= i < r@.len() ==> #[trigger] r@[i] == can_take(*o, i),
        o.feasible_per_row@.len() > 0 ==> r@ == o.feasible_per_row@,
        o.feasible_per_row@.len() == 0 ==> r@ == Seq::new(rows as nat, |i: int| true),
{
    let mut out: Vec<bool> = Vec::new();
    if o.feasible_per_row.len() == 0 {
        let mut i: usize = 0;
        while i < rows
            invariant
                i <= rows,
                out@ == Seq::new(i as nat, |k: int| true),
            decreases rows - i,
        {
            out.push(true);
            i = i + 1;
            assert(out@ =~= Seq::new(i as nat, |k: int| true));
        }
    } else {
        let mut i: usize = 0;
        while i < o.feasible_per_row.len()
            invariant
                i <= o.feasible_per_row@.len(),
                out@ == o.feasible_per_row@.take(i as int),
            decreases o.feasible_per_row.len() - i,
        {
            out.push(o.feasible_per_row[i]);
            i = i + 1;
            assert(out@ =~= o.feasible_per_row@.take(i as int));
        }
        assert(out@ =~= o.feasible_per_row@);
    }
    out
}

fn best_choice(m: &EvMatrix, covered: &Vec<bool>, r: usize) -> (best: Option<usize>)
    requires
        m.wf(),
        r < m.cells@.len(),
        covered@.len() == m.columns@.len(),
    ensures
        (match best {
            Some(c) => Some(c as int),
            None => None,
        }) == m.best_col(covered@, r as int, m.columns@.len() as int),
        best matches Some(c) ==> c < m.columns@.len(),
{
    let mut best: Option<usize> = None;
    let mut c: usize = 0;
    while c < m.columns.len()
        invariant
            m.wf(),
            r < m.cells@.len(),
            covered@.len() == m.columns@.len(),
            c <= m.columns@.len(),
            (match best {
                Some(b) => Some(b as int),
                None => None,
            }) == m.best_col(covered@, r as int, c as int),
            best matches Some(b) ==> b < c,
        decreases m.columns.len() - c,
    {
        assert(m.cells@[r as int]@.len() == m.columns@.len());
        let taken: bool = matches!(m.columns[c], ColumnKind::Objective { .. }) && covered[c];
        let ev: i64 = m.cells[r][c];
        if !taken && ev != m.infeasible {
            match best {
                Some(b) => {
                    if ev > m.cells[r][b] {
                        best = Some(c);
                    }
                },
                None => {
                    best = Some(c);
                },
            }
        }
        c = c + 1;
    }
    best
}

fn column_pick(m: &EvMatrix, col: Option<usize>) -> (r: Option<u32>)
    requires
        col matches Some(c) ==> c < m.columns@.len(),
    ensures
        r == m.pick(
            match col {
                Some(c) => Some(c as int),
                None => None,
            },
        ),
{
    match col {
        Some(c) => match m.columns[c] {
            ColumnKind::Objective { id } => Some(id),
            _ => None,
        },
        None => None,
    }
}

/// Each squad in turn takes the best choice left: an objective that a squad before
/// it took is gone.
pub fn auction_greedy(m: &EvMatrix) -> (o: AuctionOutcome)
    requires
        m.wf(),
        m.greedy_fits(),
    ensures
        m.greedy_outcome(o),
{
    let mut covered: Vec<bool> = Vec::new();
    let mut c: usize = 0;
    while c < m.columns.len()
        invariant
            c <= m.columns@.len(),
            covered@ == Seq::new(c as nat, |k: int| false),
        decreases m.columns.len() - c,
    {
        covered.push(false);
        c = c + 1;
        assert(covered@ =~= Seq::new(c as nat, |k: int| false));
    }
    let mut total_ev: i64 = 0;
    let mut picks: Vec<Option<u32>> = Vec::new();
    let mut r: usize = 0;
    while r < m.cells.len()
        invariant
            m.wf(),
            m.greedy_fits(),
            r <= m.cells@.len(),
            covered@ == m.greedy(r as int).1,
            covered@.len() == m.columns@.len(),
            total_ev == m.total(m.greedy(r as int).0, r as int),
            picks@ == Seq::new(r as nat, |k: int| m.pick(m.greedy(r as int).0[k])),
        decreases m.cells.len() - r,
    {
        let col: Option<usize> = best_choice(m, &covered, r);
        proof {
            lemma_greedy_prefix(*m, r as int, r as int + 1);
            lemma_total_reads_its_own(
                *m,
                m.greedy(r as int + 1).0,
                m.greedy(r as int).0,
                r as int,
            );
            assert(m.total(m.greedy(r as int + 1).0, r as int + 1) <= i64::MAX);
            assert forall|k: int| 0 <= k < r implies m.greedy(r as int + 1).0[k] == (
            #[trigger] m.greedy(r as int).0[k]) by {
                assert(m.greedy(r as int + 1).0.take(r as int)[k] == m.greedy(r as int + 1).0[k]);
            }
        }
        assert(m.cells@[r as int]@.len() == m.columns@.len());
        if let Some(b) = col {
            total_ev = total_ev + m.cells[r][b];
            if matches!(m.columns[b], ColumnKind::Objective { .. }) {
                covered.set(b, true);
            }
        }
        picks.push(column_pick(m, col));
        r = r + 1;
        assert(picks@ =~= Seq::new(r as nat, |k: int| m.pick(m.greedy(r as int).0[k])));
    }
    AuctionOutcome { total_ev, picks }
}

/// What a global assignment comes to.
pub fn assignment_outcome(m: &EvMatrix, sol: &AssignmentSolution) -> (o: AuctionOutcome)
    requires
        m.solved_by(*sol),
    ensures
        m.global_outcome(*sol, o),
{
    let mut picks: Vec<Option<u32>> = Vec::new();
    let ghost want = Seq::new(sol.row_to_col@.len(), |r: int| m.pick(sol.cols()[r]));
    let mut r: usize = 0;
    while r < sol.row_to_col.len()
        invariant
            m.solved_by(*sol),
            r <= sol.row_to_col@.len(),
            want.len() == sol.row_to_col@.len(),
            forall|k: int|
                0 <= k < want.len() ==> #[trigger] want[k] == m.pick(
                    match sol.row_to_col@[k] {
                        Some(c) => Some(c as int),
                        None => None,
                    },
                ),
            picks@ == want.take(r as int),
        decreases sol.row_to_col.len() - r,
    {
        picks.push(column_pick(m, sol.row_to_col[r]));
        r = r + 1;
        assert(picks@ =~= want.take(r as int));
    }
    assert(picks@ =~= want);
    AuctionOutcome { total_ev: sol.total_ev, picks }
}

/// The assignment of a scenario over its matrix: greedy, or as globally solved.
pub fn run_auction_flow(s: &AuctionFlowScenario, m: &EvMatrix, sol: &AssignmentSolution) -> (o:
    AuctionOutcome)
    requires
        m.wf(),
        !s.global_solve ==> m.greedy_fits(),
        s.global_solve ==> m.solved_by(*sol),
    ensures
        is_auctioned(*s, *m, *sol, o),
{
    if !s.global_solve {
        return auction_greedy(m);
    }
    assignment_outcome(m, sol)
}

/// Of several choices worth as much a squad takes the first, and a choice that it cannot
/// make never counts, whatever it is worth.
pub proof fn the_first_of_the_best_is_taken(m: EvMatrix, covered: Seq<bool>, r: int, n: int, b: int)
    requires
        0 <= b < n,
        m.best_col(covered, r, n) == Some(b),
    ensures
        m.cells@[r]@[b] != m.infeasible,
        m.columns@[b] is Objective ==> !covered[b],
        forall|c: int|
            0 <= c < b && #[trigger] m.open_to(covered, r, c) ==> m.cells@[r]@[c]
                < m.cells@[r]@[b],
        forall|c: int|
            b < c < n && #[trigger] m.open_to(covered, r, c) ==> m.cells@[r]@[c]
                <= m.cells@[r]@[b],
    decreases n,
{
    lemma_best_col(m, covered, r, n);
    lemma_best_col(m, covered, r, n - 1);
    if b < n - 1 {
        the_first_of_the_best_is_taken(m, covered, r, n - 1, b);
    }
}

/// A column is open to a squad that can make the choice, unless it is an objective that is
/// taken; staying put, recycling and merging are never used up.
pub proof fn only_objectives_are_used_up(m: EvMatrix, covered: Seq<bool>, r: int, c: int)
    ensures
        m.cells@[r]@[c] == m.infeasible ==> !m.open_to(covered, r, c),
        m.cells@[r]@[c] != m.infeasible && !(m.columns@[c] is Objective) ==> m.open_to(
            covered,
            r,
            c,
        ),
        m.cells@[r]@[c] != m.infeasible && m.columns@[c] is Objective ==> (m.open_to(covered, r, c)
            <==> !covered[c]),
{
}

/// A taken objective is covered for all that come after, and nothing else is.
pub proof fn taking_an_objective_covers_it(m: EvMatrix, n: int, c: int)
    requires
        0 <= n,
        0 <= c < m.columns@.len(),
    ensures
        m.greedy(n + 1).1[c] <==> m.greedy(n).1[c] || (m.columns@[c] is Objective && m.greedy(
            n + 1,
        ).0[n] == Some(c)),
        !m.greedy(0).1[c],
{
    lemma_greedy_prefix(m, n, n);
    lemma_best_col(m, m.greedy(n).1, n, m.columns@.len() as int);
}

/// One more choice adds its value, and no choice adds nothing.
pub proof fn one_more_choice_adds_its_value(m: EvMatrix, cols: Seq<Option<int>>, n: int, c: int)
    requires
        0 <= n < cols.len(),
    ensures
        cols[n] == Some(c) ==> m.total(cols, n + 1) == m.total(cols, n) + m.cells@[n]@[c],
        cols[n] is None ==> m.total(cols, n + 1) == m.total(cols, n),
        m.total(cols, 0) == 0,
{
}

/// Only an objective's column is a pick, and it picks that objective.
pub proof fn a_pick_is_an_objective(m: EvMatrix, c: int, id: u32)
    ensures
        m.columns@[c] == (ColumnKind::Objective { id }) ==> m.pick(Some(c)) == Some(id),
        !(m.columns@[c] is Objective) ==> m.pick(Some(c)) is None,
        m.pick(None) is None,
{
}

/// A solved scenario takes the solution, an unsolved one each squad's own best.
pub proof fn a_scenario_is_solved_or_greedy(
    s: AuctionFlowScenario,
    m: EvMatrix,
    sol: AssignmentSolution,
    o: AuctionOutcome,
    r: int,
)
    requires
        is_auctioned(s, m, sol, o),
    ensures
        s.global_solve ==> o.total_ev == sol.total_ev && o.picks@.len() == sol.row_to_col@.len(),
        s.global_solve && 0 <= r < sol.row_to_col@.len() && sol.row_to_col@[r] is None
            ==> o.picks@[r] is None,
        !s.global_solve ==> o.total_ev == m.total(m.greedy_cols(), m.cells@.len() as int)
            && o.picks@.len() == m.cells@.len(),
        !s.global_solve && 0 <= r < m.cells@.len() ==> o.picks@[r] == m.pick(m.greedy_cols()[r]),
{
}

/// A tank holds as many hits as twenty parts have.
pub proof fn a_tank_holds_twenty_parts(parts: int)
    ensures
        100 * parts <= TANK_HP <==> parts <= 20,
        100 * parts >= TANK_HP <==> parts >= 20,
{
}

} // verus!
