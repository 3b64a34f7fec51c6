//! The constraint evaluator: given an intent and a candidate execution
//! plan, decides admissibility (every hard constraint must hold) and a
//! preference-satisfaction score (each satisfied soft preference adds a
//! fixed positive weight of [`SCALE`] micro-units).
//!
//! The evaluator is pure: the verdict is a function of the intent and the
//! plan alone, so re-running it on the same pair yields the same verdict.

use vstd::prelude::*;
use crate::dsl::Constraint;
use crate::dsl::Dex;
use crate::dsl::Intent;
use crate::dsl::Preference;
use crate::MAX_RULES;
use crate::SCALE;

verus! {

/// A candidate execution plan, as described by the external capability
/// that produced it: the exchanges it would use, its projected drawdown
/// (in micro-units of a fraction), and the properties it provably has.
///
/// Custom constraints and preferences are evaluated against
/// `custom_attributes`: the names that externally registered predicates
/// have granted this plan. A custom constraint whose name is not granted
/// fails closed.
#[derive(Debug, Clone)]
pub struct Plan {
    /// The exchanges the plan would trade on.
    pub dexes: Vec<Dex>,
    /// Projected portfolio drawdown, in micro-units of a fraction.
    pub projected_drawdown: u64,
    /// Whether the plan resists maximal extractable value.
    pub mev_resistant: bool,
    /// Whether the plan is carbon-neutral.
    pub carbon_neutral: bool,
    /// Names of the custom properties the plan satisfies, as granted by
    /// externally registered predicates.
    pub custom_attributes: Vec<String>,
}

/// Why a plan is inadmissible for an intent.
#[derive(Debug, Clone, Copy, PartialEq, Eq, Structural)]
pub enum InadmissibleReason {
    /// The projected drawdown exceeds a drawdown bound.
    DrawdownExceeded,
    /// The plan uses an exchange outside an allowed-exchanges constraint.
    DexNotAllowed,
    /// A custom constraint is not among the plan's granted attributes.
    CustomUnsatisfied,
}

/// The evaluator's verdict on one (intent, plan) pair.
#[derive(Debug, Clone, Copy, PartialEq, Eq, Structural)]
pub enum Verdict {
    /// Every constraint holds; the payload is the preference score in
    /// micro-units.
    Admissible(u64),
    /// Some constraint fails; the payload names the first failure.
    Inadmissible(InadmissibleReason),
}

/// Whether an exchange is a member of an allowed list.
pub open spec fn dex_allowed(allowed: Seq<Dex>, d: Dex) -> bool {
    exists|i: int| 0 <= i < allowed.len() && allowed[i] == d
}

/// Whether a named custom property has been granted to the plan.
pub open spec fn has_attribute(attrs: Seq<String>, name: Seq<char>) -> bool {
    exists|i: int| 0 <= i < attrs.len() && attrs[i]@ == name
}

/// Whether one hard constraint holds of a plan.
pub open spec fn constraint_holds(c: Constraint, plan: Plan) -> bool {
    match c {
        Constraint::MaxDrawdown(d) => plan.projected_drawdown <= d,
        Constraint::AllowedDexes(ds) => forall|i: int|
            0 <= i < plan.dexes@.len() ==> dex_allowed(ds@, #[trigger] plan.dexes@[i]),
        Constraint::Custom(name) => has_attribute(plan.custom_attributes@, name@),
    }
}

/// The reason reported when a constraint of this shape fails.
pub open spec fn reason_of(c: Constraint) -> InadmissibleReason {
    match c {
        Constraint::MaxDrawdown(_) => InadmissibleReason::DrawdownExceeded,
        Constraint::AllowedDexes(_) => InadmissibleReason::DexNotAllowed,
        Constraint::Custom(_) => InadmissibleReason::CustomUnsatisfied,
    }
}

/// The first constraint, front to back, that the plan violates.
pub open spec fn first_violation(cs: Seq<Constraint>, plan: Plan) -> Option<InadmissibleReason>
    decreases cs.len(),
{
    if cs.len() == 0 {
        None
    } else if !constraint_holds(cs[0], plan) {
        Some(reason_of(cs[0]))
    } else {
        first_violation(cs.skip(1), plan)
    }
}

/// Whether one soft preference is satisfied by a plan.
pub open spec fn preference_satisfied(p: Preference, plan: Plan) -> bool {
    match p {
        Preference::MevResistant => plan.mev_resistant,
        Preference::CarbonNeutral => plan.carbon_neutral,
        Preference::Custom(name) => has_attribute(plan.custom_attributes@, name@),
    }
}

/// How many of the preferences the plan satisfies. Unsatisfied
/// preferences contribute nothing: preferences are soft, never a penalty.
pub open spec fn count_satisfied(ps: Seq<Preference>, plan: Plan) -> int
    decreases ps.len(),
{
    if ps.len() == 0 {
        0
    } else {
        count_satisfied(ps.drop_last(), plan) + if preference_satisfied(ps.last(), plan) {
            1int
        } else {
            0int
        }
    }
}

/// The preference score: a fixed weight of [`SCALE`] micro-units for each
/// satisfied preference.
pub open spec fn spec_preference_score(ps: Seq<Preference>, plan: Plan) -> int {
    SCALE * count_satisfied(ps, plan)
}

/// The evaluator's verdict as a mathematical function of its inputs.
pub open spec fn spec_evaluate(intent: Intent, plan: Plan) -> Verdict {
    match first_violation(intent.constraints@, plan) {
        Some(r) => Verdict::Inadmissible(r),
        None => Verdict::Admissible(spec_preference_score(intent.preferences@, plan) as u64),
    }
}

/// The satisfied-preference count never exceeds the number of
/// preferences.
proof fn lemma_count_satisfied_bound(ps: Seq<Preference>, plan: Plan)
    ensures
        0 <= count_satisfied(ps, plan) <= ps.len(),
    decreases ps.len(),
{
    if ps.len() > 0 {
        lemma_count_satisfied_bound(ps.drop_last(), plan);
    }
}

/// Whether `d` is a member of `ds`.
fn contains_dex(ds: &Vec<Dex>, d: Dex) -> (r: bool)
    ensures
        r == dex_allowed(ds@, d),
{
    let n = ds.len();
    let mut i: usize = 0;
    while i < n
        invariant
            i <= n,
            n == ds@.len(),
            forall|k: int| 0 <= k < i ==> ds@[k] != d,
        decreases n - i,
    {
        if ds[i] == d {
            return true;
        }
        i = i + 1;
    }
    false
}

/// Whether every exchange the plan uses is in the allowed list.
fn all_dexes_allowed(allowed: &Vec<Dex>, used: &Vec<Dex>) -> (r: bool)
    ensures
        r == forall|i: int| 0 <= i < used@.len() ==> dex_allowed(allowed@, #[trigger] used@[i]),
{
    let n = used.len();
    let mut i: usize = 0;
    while i < n
        invariant
            i <= n,
            n == used@.len(),
            forall|k: int| 0 <= k < i ==> dex_allowed(allowed@, #[trigger] used@[k]),
        decreases n - i,
    {
        if !contains_dex(allowed, used[i]) {
            return false;
        }
        i = i + 1;
    }
    true
}

/// Whether a named custom property has been granted.
fn has_attr(attrs: &Vec<String>, name: &String) -> (r: bool)
    ensures
        r == has_attribute(attrs@, name@),
{
    let n = attrs.len();
    let mut i: usize = 0;
    while i < n
        invariant
            i <= n,
            n == attrs@.len(),
            forall|k: int| 0 <= k < i ==> attrs@[k]@ != name@,
        decreases n - i,
    {
        if attrs[i] == *name {
            return true;
        }
        i = i + 1;
    }
    false
}

/// Evaluates one candidate plan against one intent: inadmissible with the
/// first violated constraint's reason, or admissible with the preference
/// score. Pure: the verdict is exactly [`spec_evaluate`] of the inputs,
/// and the inputs are not mutated.
pub fn evaluate(intent: &Intent, plan: &Plan) -> (v: Verdict)
    requires
        intent.wf(),
    ensures
        v == spec_evaluate(*intent, *plan),
        v matches Verdict::Admissible(score) ==> score <= SCALE * MAX_RULES,
{
    let ghost cs = intent.constraints@;
    let n = intent.constraints.len();
    let mut i: usize = 0;
    assert(cs.skip(0) =~= cs);
    while i < n
        invariant
            i <= n,
            n == cs.len(),
            cs == intent.constraints@,
            first_violation(cs, *plan) == first_violation(cs.skip(i as int), *plan),
        decreases n - i,
    {
        let ghost pre = cs.skip(i as int);
        assert(pre[0] == cs[i as int]);
        assert(pre.skip(1) =~= cs.skip(i + 1));
        let holds = match &intent.constraints[i] {
            Constraint::MaxDrawdown(d) => plan.projected_drawdown <= *d,
            Constraint::AllowedDexes(ds) => all_dexes_allowed(ds, &plan.dexes),
            Constraint::Custom(name) => has_attr(&plan.custom_attributes, name),
        };
        if !holds {
            let reason = match &intent.constraints[i] {
                Constraint::MaxDrawdown(_) => InadmissibleReason::DrawdownExceeded,
                Constraint::AllowedDexes(_) => InadmissibleReason::DexNotAllowed,
                Constraint::Custom(_) => InadmissibleReason::CustomUnsatisfied,
            };
            assert(first_violation(pre, *plan) == Some(reason_of(cs[i as int])));
            return Verdict::Inadmissible(reason);
        }
        i = i + 1;
    }
    assert(cs.skip(n as int) =~= Seq::<Constraint>::empty());
    assert(first_violation(cs, *plan) is None);

    let ghost ps = intent.preferences@;
    let m = intent.preferences.len();
    let mut count: u64 = 0;
    let mut j: usize = 0;
    proof {
        lemma_count_satisfied_bound(ps, *plan);
    }
    while j < m
        invariant
            j <= m,
            m == ps.len(),
            ps == intent.preferences@,
            m <= MAX_RULES,
            count == count_satisfied(ps.subrange(0, j as int), *plan),
            count <= j,
        decreases m - j,
    {
        let ghost prefix = ps.subrange(0, j + 1);
        assert(prefix.drop_last() =~= ps.subrange(0, j as int));
        assert(prefix.last() == ps[j as int]);
        let sat = match &intent.preferences[j] {
            Preference::MevResistant => plan.mev_resistant,
            Preference::CarbonNeutral => plan.carbon_neutral,
            Preference::Custom(name) => has_attr(&plan.custom_attributes, name),
        };
        if sat {
            count = count + 1;
        }
        j = j + 1;
    }
    assert(ps.subrange(0, m as int) =~= ps);
    let score = SCALE * count;
    Verdict::Admissible(score)
}

/// The evaluator is idempotent: with no state change, two verdicts
/// computed for the same (intent, plan) pair are identical, both in the
/// admissibility decision and in the preference score. This holds because
/// the verdict of [`evaluate`] is a function of the pair alone.
pub proof fn lemma_evaluate_idempotent(intent: Intent, plan: Plan, v1: Verdict, v2: Verdict)
    requires
        v1 == spec_evaluate(intent, plan),
        v2 == spec_evaluate(intent, plan),
    ensures
        v1 == v2,
{
}

} // verus!
