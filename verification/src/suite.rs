//! Crossing a generator with a validator.

use crate::generate::Generator;
use crate::scenario::Scenario;
use crate::validate::{Validator, Verdict};
use vstd::prelude::*;

verus! {

/// What a validator made of a generator's scenarios.
#[derive(Clone, Debug)]
pub struct SuiteReport {
    pub generator: String,
    pub validator: String,
    pub scenarios: u32,
    pub passed: u32,
    pub verdicts: Vec<Verdict>,
}

/// How many verdicts pass.
pub open spec fn passed_among(v: Seq<Verdict>) -> nat
    decreases v.len(),
{
    if v.len() == 0 {
        0
    } else {
        passed_among(v.drop_last()) + if v.last().pass {
            1nat
        } else {
            0nat
        }
    }
}

/// The scenarios that were judged in turn, and the judge before and after each.
pub open spec fn judged_in_turn<G: Generator, V: Validator>(
    generator: G,
    scenarios: Seq<Scenario>,
    judges: Seq<V>,
    verdicts: Seq<Verdict>,
) -> bool {
    &&& scenarios.len() == verdicts.len()
    &&& judges.len() == verdicts.len() + 1
    &&& forall|i: int|
        0 <= i < verdicts.len() ==> generator.yields(i as u32, #[trigger] scenarios[i])
    &&& forall|i: int|
        0 <= i < verdicts.len() ==> (#[trigger] judges[i]).judged(
            scenarios[i],
            judges[i + 1],
            verdicts[i],
        )
}

/// Has every scenario of a generator judged, in order.
pub fn run_suite<G: Generator, V: Validator>(generator: &G, validator: &mut V) -> (r: SuiteReport)
    ensures
        r.generator@ == generator.name(),
        r.validator@ == final(validator).name(),
        r.scenarios == generator.offered(),
        r.verdicts@.len() == generator.offered(),
        r.passed == passed_among(r.verdicts@),
        r.passed <= r.scenarios,
        exists|scenarios: Seq<Scenario>, judges: Seq<V>|
            #[trigger] judged_in_turn(*generator, scenarios, judges, r.verdicts@) && judges[0]
                == *old(validator) && judges.last() == *final(validator),
{
    let n: u32 = generator.count();
    let mut verdicts: Vec<Verdict> = Vec::new();
    let mut passed: u32 = 0;
    let mut i: u32 = 0;
    let ghost mut scenarios: Seq<Scenario> = seq![];
    let ghost mut judges: Seq<V> = seq![*validator];
    while i < n
        invariant
            i <= n,
            n == generator.offered(),
            verdicts@.len() == i,
            passed <= i,
            passed == passed_among(verdicts@),
            judged_in_turn(*generator, scenarios, judges, verdicts@),
            judges[0] == *old(validator),
            judges.last() == *validator,
        decreases n - i,
    {
        let scenario: Scenario = generator.generate(i);
        let ghost judges0 = judges;
        let v: Verdict = validator.validate(&scenario);
        proof {
            scenarios = scenarios.push(scenario);
            judges = judges.push(*validator);
        }
        if v.pass {
            passed = passed + 1;
        }
        let ghost before = verdicts@;
        verdicts.push(v);
        assert(verdicts@.drop_last() =~= before);
        assert forall|k: int| 0 <= k < verdicts@.len() implies (#[trigger] judges[k]).judged(
            scenarios[k],
            judges[k + 1],
            verdicts@[k],
        ) by {
            assert(judges[k] == judges0[k]);
            if k < i {
                assert(judges[k + 1] == judges0[k + 1]);
            }
        }
        i = i + 1;
    }
    SuiteReport {
        generator: generator.label(),
        validator: validator.label(),
        scenarios: n,
        passed,
        verdicts,
    }
}

/// Verdicts count alone: what passes among two lists passes among both together, a passing
/// one counts once and a failing one not at all.
pub proof fn verdicts_count_alone(a: Seq<Verdict>, b: Seq<Verdict>, v: Verdict)
    ensures
        passed_among(a + b) == passed_among(a) + passed_among(b),
        v.pass ==> passed_among(seq![v]) == 1,
        !v.pass ==> passed_among(seq![v]) == 0,
        passed_among(a) <= a.len(),
    decreases b.len(), a.len(),
{
    assert(seq![v].drop_last() =~= Seq::<Verdict>::empty());
    if a.len() > 0 {
        verdicts_count_alone(a.drop_last(), seq![], v);
    }
    if b.len() > 0 {
        verdicts_count_alone(a, b.drop_last(), v);
        assert((a + b).drop_last() =~= a + b.drop_last());
        assert((a + b).last() == b.last());
    } else {
        assert(a + b =~= a);
    }
}

} // verus!
