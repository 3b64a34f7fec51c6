//! The matching engine: assigns at most one agent to each intent in a
//! round, respecting hard constraints and maximizing a composite of
//! reputation and preference fit.
//!
//! A round first drops expired intents, then computes each remaining
//! intent's admissible candidates, then processes intents in descending
//! order of their top composite score (ties by position), greedily
//! claiming the best remaining agent (ties by lexicographically smaller
//! agent id). Each agent is assigned to at most one intent per round.
//! The whole round is a mathematical function of its inputs
//! ([`spec_match_round`]), so repeated rounds over the same inputs
//! produce identical assignments.

use vstd::prelude::*;
use crate::agent::Agent;
use crate::dsl::Expiration;
use crate::dsl::Intent;
use crate::evaluator::evaluate;
use crate::evaluator::spec_evaluate;
use crate::evaluator::Plan;
use crate::evaluator::Verdict;
use crate::registry::find_agent;
use crate::registry::lemma_find_agent_wf;
use crate::registry::Registry;
use crate::MAX_RULES;
use crate::MAX_SCORE;
use crate::SCALE;

verus! {

/// Whether an intent with this expiration is expired at the given block
/// height.
pub open spec fn spec_expired(e: Expiration, height: u64) -> bool {
    match e {
        Expiration::AtBlock(h) => height >= h,
        Expiration::Never => false,
    }
}

/// Whether an intent with this expiration is expired at the given block
/// height: `AtBlock(h)` intents expire as soon as the height reaches
/// `h`; `Never` intents do not expire.
pub fn is_expired(e: &Expiration, height: u64) -> (r: bool)
    ensures
        r == spec_expired(*e, height),
{
    match e {
        Expiration::AtBlock(h) => height >= *h,
        Expiration::Never => false,
    }
}

/// One agent's candidate plan for one intent, as produced by the
/// external capability that plans on the agent's behalf.
#[derive(Debug, Clone)]
pub struct Proposal {
    /// The proposing agent.
    pub agent_id: String,
    /// The agent's most recent candidate plan for the intent.
    pub plan: Plan,
}

/// An admissible candidate: an agent together with its composite score.
#[derive(Debug, Clone)]
pub struct Cand {
    /// The candidate agent.
    pub agent_id: String,
    /// The composite score, in micro-units.
    pub score: u64,
}

/// The outcome of one intent in a matching round.
#[derive(Debug, Clone)]
pub enum MatchOutcome {
    /// The intent is assigned to this agent.
    Assigned(String),
    /// The intent's expiration has passed; it is never retried.
    Expired,
    /// No admissible agent remained for the intent in this round.
    Unfulfillable,
}

/// The composite objective: reputation dominates, preference fit breaks
/// ties among similarly reputable agents
/// (`0.7 * reputation_score + 0.3 * preference_score`).
pub open spec fn spec_composite(rep_score: u64, pref_score: u64) -> int {
    (7 * rep_score + 3 * pref_score) / 10
}

/// Strict lexicographic order on character sequences, by scalar value.
pub open spec fn lex_lt(a: Seq<char>, b: Seq<char>) -> bool
    decreases a.len(),
{
    if b.len() == 0 {
        false
    } else if a.len() == 0 {
        true
    } else if a[0] != b[0] {
        (a[0] as u32) < (b[0] as u32)
    } else {
        lex_lt(a.skip(1), b.skip(1))
    }
}

/// Whether `a` orders strictly before `b` lexicographically.
pub fn str_lex_lt(a: &String, b: &String) -> (r: bool)
    ensures
        r == lex_lt(a@, b@),
{
    let alen = a.as_str().unicode_len();
    let blen = b.as_str().unicode_len();
    let mut i: usize = 0;
    assert(a@.skip(0) =~= a@);
    assert(b@.skip(0) =~= b@);
    while i < alen && i < blen
        invariant
            i <= alen,
            i <= blen,
            alen == a@.len(),
            blen == b@.len(),
            lex_lt(a@, b@) == lex_lt(a@.skip(i as int), b@.skip(i as int)),
        decreases alen - i,
    {
        assert(a@.skip(i as int)[0] == a@[i as int]);
        assert(b@.skip(i as int)[0] == b@[i as int]);
        assert(a@.skip(i as int).skip(1) =~= a@.skip(i + 1));
        assert(b@.skip(i as int).skip(1) =~= b@.skip(i + 1));
        let ca = a.as_str().get_char(i);
        let cb = b.as_str().get_char(i);
        if ca != cb {
            return (ca as u32) < (cb as u32);
        }
        i = i + 1;
    }
    alen < blen
}

/// The candidate list for one intent: for each proposal, front to back,
/// the proposing agent enters as a candidate exactly when it is
/// registered and its plan is admissible; its score is the composite of
/// its reputation score and the plan's preference score.
pub open spec fn spec_candidates(intent: Intent, props: Seq<Proposal>, agents: Seq<Agent>) -> Seq<
    Cand,
>
    decreases props.len(),
{
    if props.len() == 0 {
        Seq::empty()
    } else {
        let rest = spec_candidates(intent, props.drop_last(), agents);
        let p = props.last();
        match find_agent(agents, p.agent_id@) {
            Some(a) => match spec_evaluate(intent, p.plan) {
                Verdict::Admissible(ps) => rest.push(
                    Cand {
                        agent_id: p.agent_id,
                        score: spec_composite(a.reputation.score, ps) as u64,
                    },
                ),
                Verdict::Inadmissible(_) => rest,
            },
            None => rest,
        }
    }
}

/// Whether an agent id is a member of the claimed list.
pub open spec fn claimed_has(claimed: Seq<String>, id: Seq<char>) -> bool {
    exists|i: int| 0 <= i < claimed.len() && claimed[i]@ == id
}

/// Whether candidate `c` ranks strictly before candidate `b`: a higher
/// composite score, or an equal score and a lexicographically smaller
/// agent id.
pub open spec fn cand_preferred(c: Cand, b: Cand) -> bool {
    c.score > b.score || (c.score == b.score && lex_lt(c.agent_id@, b.agent_id@))
}

/// The best unclaimed candidate: maximal composite score, ties broken by
/// lexicographically smaller agent id, earlier position winning among
/// exact duplicates.
pub open spec fn spec_best(cands: Seq<Cand>, claimed: Seq<String>) -> Option<Cand>
    decreases cands.len(),
{
    if cands.len() == 0 {
        None
    } else {
        let rest = spec_best(cands.drop_last(), claimed);
        let c = cands.last();
        if claimed_has(claimed, c.agent_id@) {
            rest
        } else {
            match rest {
                None => Some(c),
                Some(b) => if cand_preferred(c, b) {
                    Some(c)
                } else {
                    Some(b)
                },
            }
        }
    }
}

/// A best candidate is an unclaimed element of the list.
proof fn lemma_best_in(cands: Seq<Cand>, claimed: Seq<String>)
    ensures
        spec_best(cands, claimed) matches Some(c) ==> (exists|k: int|
            0 <= k < cands.len() && cands[k] == c) && !claimed_has(claimed, c.agent_id@),
    decreases cands.len(),
{
    if cands.len() > 0 {
        lemma_best_in(cands.drop_last(), claimed);
        assert(forall|k: int| 0 <= k < cands.len() - 1 ==> cands.drop_last()[k] == cands[k]);
        match spec_best(cands.drop_last(), claimed) {
            Some(b) => {
                let k = choose|k: int|
                    0 <= k < cands.drop_last().len() && cands.drop_last()[k] == b;
                assert(cands[k] == b);
            },
            None => {},
        }
        assert(cands[cands.len() - 1] == cands.last());
    }
}

/// Everything in a candidate list traces back to an admissible proposal
/// from a registered agent.
pub open spec fn admissible_assignment(
    intent: Intent,
    props: Seq<Proposal>,
    agents: Seq<Agent>,
    id: Seq<char>,
) -> bool {
    &&& exists|p: int|
        0 <= p < props.len() && (#[trigger] props[p]).agent_id@ == id && spec_evaluate(
            intent,
            props[p].plan,
        ) is Admissible
    &&& find_agent(agents, id) is Some
}

/// Every candidate for an intent stems from an admissible proposal of a
/// registered agent.
proof fn lemma_candidates_provenance(intent: Intent, props: Seq<Proposal>, agents: Seq<Agent>)
    ensures
        forall|k: int|
            0 <= k < spec_candidates(intent, props, agents).len() ==> admissible_assignment(
                intent,
                props,
                agents,
                (#[trigger] spec_candidates(intent, props, agents)[k]).agent_id@,
            ),
    decreases props.len(),
{
    if props.len() > 0 {
        let shorter = props.drop_last();
        lemma_candidates_provenance(intent, shorter, agents);
        assert(forall|p: int| 0 <= p < shorter.len() ==> shorter[p] == props[p]);
        let cands = spec_candidates(intent, props, agents);
        let rest = spec_candidates(intent, shorter, agents);
        assert forall|k: int| 0 <= k < cands.len() implies admissible_assignment(
            intent,
            props,
            agents,
            (#[trigger] cands[k]).agent_id@,
        ) by {
            if k < rest.len() {
                assert(admissible_assignment(intent, shorter, agents, rest[k].agent_id@));
                let p = choose|p: int|
                    0 <= p < shorter.len() && (#[trigger] shorter[p]).agent_id@
                        == rest[k].agent_id@ && spec_evaluate(intent, shorter[p].plan)
                        is Admissible;
                assert(props[p].agent_id@ == cands[k].agent_id@);
                assert(spec_evaluate(intent, props[p].plan) is Admissible);
            } else {
                let p = props.len() - 1;
                assert(props[p].agent_id@ == cands[k].agent_id@);
                assert(spec_evaluate(intent, props[p].plan) is Admissible);
            }
        }
    }
}

/// The pending intent with the greatest top score, earliest position
/// winning ties; `None` when no intent is pending.
pub open spec fn spec_pick(tops: Seq<Option<u64>>) -> Option<usize>
    decreases tops.len(),
{
    if tops.len() == 0 {
        None
    } else {
        let rest = spec_pick(tops.drop_last());
        match tops.last() {
            None => rest,
            Some(s) => match rest {
                None => Some((tops.len() - 1) as usize),
                Some(j) => match tops[j as int] {
                    Some(bs) => if s > bs {
                        Some((tops.len() - 1) as usize)
                    } else {
                        Some(j)
                    },
                    None => Some(j),
                },
            },
        }
    }
}

/// A picked index is in range and pending; a `None` pick means nothing
/// is pending.
proof fn lemma_pick_valid(tops: Seq<Option<u64>>)
    requires
        tops.len() <= usize::MAX,
    ensures
        match spec_pick(tops) {
            Some(j) => j < tops.len() && tops[j as int] is Some,
            None => forall|i: int| 0 <= i < tops.len() ==> tops[i] is None,
        },
    decreases tops.len(),
{
    if tops.len() > 0 {
        let shorter = tops.drop_last();
        lemma_pick_valid(shorter);
        assert(forall|i: int| 0 <= i < shorter.len() ==> shorter[i] == tops[i]);
        match spec_pick(tops) {
            Some(j) => {},
            None => {
                assert forall|i: int| 0 <= i < tops.len() implies tops[i] is None by {
                    if i < tops.len() - 1 {
                        assert(shorter[i] is None);
                    }
                }
            },
        }
    }
}

/// The order in which pending intents are processed: repeatedly the
/// pending intent with the greatest top score, which then stops being
/// pending.
pub open spec fn spec_order(tops: Seq<Option<u64>>, fuel: nat) -> Seq<usize>
    decreases fuel,
{
    if fuel == 0 {
        Seq::empty()
    } else {
        match spec_pick(tops) {
            None => Seq::empty(),
            Some(j) => seq![j] + spec_order(tops.update(j as int, None), (fuel - 1) as nat),
        }
    }
}

/// The greedy assignment pass: for each index in processing order, claim
/// the best remaining candidate for that intent, if one is left.
pub open spec fn spec_assign(
    order: Seq<usize>,
    table: Seq<Seq<Cand>>,
    outcomes: Seq<MatchOutcome>,
    claimed: Seq<String>,
) -> Seq<MatchOutcome>
    decreases order.len(),
{
    if order.len() == 0 {
        outcomes
    } else {
        let j = order[0] as int;
        match spec_best(table[j], claimed) {
            Some(c) => spec_assign(
                order.skip(1),
                table,
                outcomes.update(j, MatchOutcome::Assigned(c.agent_id)),
                claimed.push(c.agent_id),
            ),
            None => spec_assign(order.skip(1), table, outcomes, claimed),
        }
    }
}

/// The candidate table of a round: expired intents have no candidates;
/// every other intent has its admissible candidates.
pub open spec fn spec_table(
    intents: Seq<Intent>,
    proposals: Seq<Vec<Proposal>>,
    agents: Seq<Agent>,
    height: u64,
) -> Seq<Seq<Cand>> {
    Seq::new(
        intents.len(),
        |i: int|
            if spec_expired(intents[i].expiration, height) {
                Seq::empty()
            } else {
                spec_candidates(intents[i], proposals[i]@, agents)
            },
    )
}

/// The top composite score of a candidate list, if it has any candidate.
pub open spec fn spec_top(cands: Seq<Cand>) -> Option<u64> {
    match spec_best(cands, Seq::empty()) {
        Some(c) => Some(c.score),
        None => None,
    }
}

/// The outcomes before assignment: expired intents are `Expired`, all
/// others `Unfulfillable` until an agent is claimed for them.
pub open spec fn spec_initial_outcomes(intents: Seq<Intent>, height: u64) -> Seq<MatchOutcome> {
    Seq::new(
        intents.len(),
        |i: int|
            if spec_expired(intents[i].expiration, height) {
                MatchOutcome::Expired
            } else {
                MatchOutcome::Unfulfillable
            },
    )
}

/// The whole matching round as a mathematical function of the intents,
/// the proposals, the registry contents and the block height.
pub open spec fn spec_match_round(
    intents: Seq<Intent>,
    proposals: Seq<Vec<Proposal>>,
    agents: Seq<Agent>,
    height: u64,
) -> Seq<MatchOutcome> {
    let table = spec_table(intents, proposals, agents, height);
    let tops = Seq::new(intents.len(), |i: int| spec_top(table[i]));
    spec_assign(
        spec_order(tops, intents.len()),
        table,
        spec_initial_outcomes(intents, height),
        Seq::empty(),
    )
}

/// Replaces the element at `i`, keeping every other element.
fn set_at<T>(v: &mut Vec<T>, i: usize, value: T)
    requires
        i < old(v)@.len(),
    ensures
        final(v)@ == old(v)@.update(i as int, value),
{
    let ghost s = v@;
    v.remove(i);
    v.insert(i, value);
    assert(v@ =~= s.update(i as int, value));
}

/// Whether the agent id is already claimed in this round.
fn is_claimed(claimed: &Vec<String>, id: &String) -> (r: bool)
    ensures
        r == claimed_has(claimed@, id@),
{
    let n = claimed.len();
    let mut i: usize = 0;
    while i < n
        invariant
            i <= n,
            n == claimed@.len(),
            forall|k: int| 0 <= k < i ==> claimed@[k]@ != id@,
        decreases n - i,
    {
        if claimed[i] == *id {
            return true;
        }
        i = i + 1;
    }
    false
}

/// The admissible candidates of one intent, in proposal order: the exec
/// face of [`spec_candidates`].
fn build_candidates(intent: &Intent, props: &Vec<Proposal>, registry: &Registry) -> (r: Vec<Cand>)
    requires
        intent.wf(),
        registry.wf(),
    ensures
        r@ == spec_candidates(*intent, props@, registry.agents_seq()),
{
    let ghost agents = registry.agents_seq();
    let n = props.len();
    let mut cands: Vec<Cand> = Vec::new();
    let mut i: usize = 0;
    assert(props@.subrange(0, 0) =~= Seq::<Proposal>::empty());
    while i < n
        invariant
            i <= n,
            n == props@.len(),
            intent.wf(),
            registry.wf(),
            agents == registry.agents_seq(),
            cands@ == spec_candidates(*intent, props@.subrange(0, i as int), agents),
        decreases n - i,
    {
        let ghost prefix = props@.subrange(0, i + 1);
        assert(prefix.drop_last() =~= props@.subrange(0, i as int));
        assert(prefix.last() == props@[i as int]);
        let p = &props[i];
        match registry.get(&p.agent_id) {
            Ok(a) => {
                proof {
                    lemma_find_agent_wf(agents, p.agent_id@);
                }
                match evaluate(intent, &p.plan) {
                    Verdict::Admissible(ps) => {
                        assert(a.reputation.score <= MAX_SCORE);
                        assert(ps <= SCALE * MAX_RULES);
                        let score = (7 * a.reputation.score + 3 * ps) / 10;
                        cands.push(Cand { agent_id: p.agent_id.clone(), score });
                    },
                    Verdict::Inadmissible(_) => {},
                }
            },
            Err(_) => {},
        }
        i = i + 1;
    }
    assert(props@.subrange(0, n as int) =~= props@);
    cands
}

/// The index of the best unclaimed candidate: the exec face of
/// [`spec_best`].
fn best_candidate(cands: &Vec<Cand>, claimed: &Vec<String>) -> (r: Option<usize>)
    ensures
        match r {
            Some(k) => k < cands@.len() && spec_best(cands@, claimed@) == Some(cands@[k as int]),
            None => spec_best(cands@, claimed@) is None,
        },
{
    let n = cands.len();
    let mut best: Option<usize> = None;
    let mut i: usize = 0;
    assert(cands@.subrange(0, 0) =~= Seq::<Cand>::empty());
    while i < n
        invariant
            i <= n,
            n == cands@.len(),
            match best {
                Some(k) => k < i && spec_best(cands@.subrange(0, i as int), claimed@) == Some(
                    cands@[k as int],
                ),
                None => spec_best(cands@.subrange(0, i as int), claimed@) is None,
            },
        decreases n - i,
    {
        let ghost prefix = cands@.subrange(0, i + 1);
        assert(prefix.drop_last() =~= cands@.subrange(0, i as int));
        assert(prefix.last() == cands@[i as int]);
        if !is_claimed(claimed, &cands[i].agent_id) {
            match best {
                Some(k) => {
                    let better = cands[i].score > cands[k].score || (cands[i].score
                        == cands[k].score && str_lex_lt(&cands[i].agent_id, &cands[k].agent_id));
                    assert(better == cand_preferred(cands@[i as int], cands@[k as int]));
                    if better {
                        best = Some(i);
                    }
                },
                None => {
                    best = Some(i);
                },
            }
        }
        i = i + 1;
    }
    assert(cands@.subrange(0, n as int) =~= cands@);
    best
}

/// The index of the pending intent with the greatest top score: the exec
/// face of [`spec_pick`].
fn pick_intent(tops: &Vec<Option<u64>>) -> (r: Option<usize>)
    ensures
        r == spec_pick(tops@),
{
    let n = tops.len();
    let mut best: Option<usize> = None;
    let mut i: usize = 0;
    assert(tops@.subrange(0, 0) =~= Seq::<Option<u64>>::empty());
    while i < n
        invariant
            i <= n,
            n == tops@.len(),
            best == spec_pick(tops@.subrange(0, i as int)),
            best matches Some(j) ==> j < i && tops@[j as int] is Some,
        decreases n - i,
    {
        let ghost prefix = tops@.subrange(0, i + 1);
        assert(prefix.drop_last() =~= tops@.subrange(0, i as int));
        assert(prefix.last() == tops@[i as int]);
        match tops[i] {
            Some(s) => {
                match best {
                    Some(j) => {
                        match tops[j] {
                            Some(bs) => {
                                if s > bs {
                                    best = Some(i);
                                }
                            },
                            None => {},
                        }
                    },
                    None => {
                        best = Some(i);
                    },
                }
            },
            None => {},
        }
        i = i + 1;
    }
    assert(tops@.subrange(0, n as int) =~= tops@);
    best
}

/// The processing order of the round: the exec face of [`spec_order`],
/// with fuel equal to the number of intents.
fn processing_order(tops: Vec<Option<u64>>) -> (r: Vec<usize>)
    ensures
        r@ == spec_order(tops@, tops@.len() as nat),
        forall|k: int|
            0 <= k < r@.len() ==> ((#[trigger] r@[k]) as int) < tops@.len() && tops@[r@[k] as int]
                is Some,
{
    let ghost tops0 = tops@;
    let mut tops = tops;
    let n = tops.len();
    let mut order: Vec<usize> = Vec::new();
    let mut rounds: usize = 0;
    while rounds < n
        invariant
            rounds <= n,
            n == tops@.len(),
            tops0.len() == n,
            spec_order(tops0, n as nat) =~= order@ + spec_order(tops@, (n - rounds) as nat),
            forall|i: int| 0 <= i < n ==> (tops@[i] is Some ==> tops0[i] == #[trigger] tops@[i]),
            forall|k: int|
                0 <= k < order@.len() ==> ((#[trigger] order@[k]) as int) < n
                    && tops0[order@[k] as int] is Some,
        decreases n - rounds,
    {
        let ghost pre = tops@;
        let ghost fuel = (n - rounds) as nat;
        match pick_intent(&tops) {
            Some(j) => {
                proof {
                    lemma_pick_valid(pre);
                }
                assert(spec_order(pre, fuel) == seq![j] + spec_order(
                    pre.update(j as int, None),
                    (fuel - 1) as nat,
                ));
                order.push(j);
                set_at(&mut tops, j, None);
                assert(order@ + spec_order(tops@, (n - (rounds + 1)) as nat) =~= spec_order(
                    tops0,
                    n as nat,
                ));
            },
            None => {
                assert(spec_order(pre, fuel) =~= Seq::<usize>::empty());
                assert(spec_order(pre, (n - (rounds + 1)) as nat) =~= Seq::<usize>::empty());
            },
        }
        rounds = rounds + 1;
    }
    assert(spec_order(tops@, 0) =~= Seq::<usize>::empty());
    assert(order@ =~= spec_order(tops0, n as nat));
    order
}

/// One matching round: at most one agent per intent, each agent claimed
/// by at most one intent.
///
/// The result is index-aligned with `intents`; `proposals[i]` holds the
/// candidate plans offered for `intents[i]`. The round is deterministic:
/// the outcome sequence equals [`spec_match_round`] of the inputs, so
/// identical intents, proposals, registry contents and height always
/// yield the identical assignment. Expired intents are reported
/// `Expired` and never assigned; assigned agents stem from admissible
/// proposals of registered agents; no agent is assigned twice.
pub fn match_round(
    intents: &Vec<Intent>,
    proposals: &Vec<Vec<Proposal>>,
    registry: &Registry,
    current_block_height: u64,
) -> (r: Vec<MatchOutcome>)
    requires
        registry.wf(),
        proposals@.len() == intents@.len(),
        forall|i: int| 0 <= i < intents@.len() ==> (#[trigger] intents@[i]).wf(),
    ensures
        r@ == spec_match_round(
            intents@,
            proposals@,
            registry.agents_seq(),
            current_block_height,
        ),
        r@.len() == intents@.len(),
        forall|i: int|
            0 <= i < r@.len() ==> ((#[trigger] r@[i]) is Expired <==> spec_expired(
                intents@[i].expiration,
                current_block_height,
            )),
        forall|i: int, j: int|
            0 <= i < r@.len() && 0 <= j < r@.len() && i != j && (#[trigger] r@[i]) is Assigned
                && (#[trigger] r@[j]) is Assigned ==> (r@[i]->Assigned_0)@ != (r@[j]->Assigned_0)@,
        forall|i: int|
            0 <= i < r@.len() ==> ((#[trigger] r@[i]) matches MatchOutcome::Assigned(a)
                ==> admissible_assignment(
                intents@[i],
                proposals@[i]@,
                registry.agents_seq(),
                a@,
            )),
{
    let ghost agents = registry.agents_seq();
    let ghost stable = spec_table(intents@, proposals@, agents, current_block_height);
    let ghost stops = Seq::new(intents@.len(), |i: int| spec_top(stable[i]));
    let ghost sinit = spec_initial_outcomes(intents@, current_block_height);

    let n = intents.len();
    let no_claims: Vec<String> = Vec::new();
    let mut table: Vec<Vec<Cand>> = Vec::new();
    let mut tops: Vec<Option<u64>> = Vec::new();
    let mut outcomes: Vec<MatchOutcome> = Vec::new();
    let mut i: usize = 0;
    while i < n
        invariant
            i <= n,
            n == intents@.len(),
            proposals@.len() == n,
            forall|k: int| 0 <= k < n ==> (#[trigger] intents@[k]).wf(),
            registry.wf(),
            agents == registry.agents_seq(),
            stable == spec_table(intents@, proposals@, agents, current_block_height),
            stops == Seq::new(intents@.len(), |k: int| spec_top(stable[k])),
            sinit == spec_initial_outcomes(intents@, current_block_height),
            no_claims@ == Seq::<String>::empty(),
            table@.len() == i,
            tops@.len() == i,
            outcomes@.len() == i,
            forall|k: int| 0 <= k < i ==> (#[trigger] table@[k])@ == stable[k],
            forall|k: int| 0 <= k < i ==> #[trigger] tops@[k] == stops[k],
            forall|k: int| 0 <= k < i ==> #[trigger] outcomes@[k] == sinit[k],
        decreases n - i,
    {
        if is_expired(&intents[i].expiration, current_block_height) {
            table.push(Vec::new());
            tops.push(None);
            outcomes.push(MatchOutcome::Expired);
        } else {
            let cands = build_candidates(&intents[i], &proposals[i], registry);
            match best_candidate(&cands, &no_claims) {
                Some(k) => {
                    tops.push(Some(cands[k].score));
                },
                None => {
                    tops.push(None);
                },
            }
            table.push(cands);
            outcomes.push(MatchOutcome::Unfulfillable);
        }
        i = i + 1;
    }
    assert(tops@ =~= stops);
    assert(outcomes@ =~= sinit);

    let order = processing_order(tops);
    let ghost sorder = order@;
    assert(sorder == spec_order(stops, n as nat));

    let mut claimed: Vec<String> = Vec::new();
    let mut q: usize = 0;
    assert(sorder.skip(0) =~= sorder);
    while q < order.len()
        invariant
            q <= order@.len(),
            order@ == sorder,
            n == intents@.len(),
            proposals@.len() == n,
            agents == registry.agents_seq(),
            stable == spec_table(intents@, proposals@, agents, current_block_height),
            table@.len() == n,
            outcomes@.len() == n,
            forall|k: int| 0 <= k < n ==> (#[trigger] table@[k])@ == stable[k],
            forall|k: int|
                0 <= k < sorder.len() ==> ((#[trigger] sorder[k]) as int) < n
                    && stops[sorder[k] as int] is Some,
            stops == Seq::new(intents@.len(), |k: int| spec_top(stable[k])),
            spec_assign(sorder, stable, sinit, Seq::empty()) == spec_assign(
                sorder.skip(q as int),
                stable,
                outcomes@,
                claimed@,
            ),
            forall|k: int|
                0 <= k < outcomes@.len() ==> ((#[trigger] outcomes@[k]) is Expired <==> spec_expired(
                    intents@[k].expiration,
                    current_block_height,
                )),
            forall|k: int|
                0 <= k < outcomes@.len() ==> ((#[trigger] outcomes@[k]) matches
                    MatchOutcome::Assigned(a) ==> claimed_has(claimed@, a@)),
            forall|k1: int, k2: int|
                0 <= k1 < outcomes@.len() && 0 <= k2 < outcomes@.len() && k1 != k2 && (
                #[trigger] outcomes@[k1]) is Assigned && (#[trigger] outcomes@[k2]) is Assigned
                    ==> (outcomes@[k1]->Assigned_0)@ != (outcomes@[k2]->Assigned_0)@,
            forall|k: int|
                0 <= k < outcomes@.len() ==> ((#[trigger] outcomes@[k]) matches
                    MatchOutcome::Assigned(a) ==> admissible_assignment(
                    intents@[k],
                    proposals@[k]@,
                    agents,
                    a@,
                )),
        decreases order@.len() - q,
    {
        let ghost rem = sorder.skip(q as int);
        assert(rem[0] == sorder[q as int]);
        assert(rem.skip(1) =~= sorder.skip(q + 1));
        let j = order[q];
        assert(stops[j as int] is Some);
        proof {
            if spec_expired(intents@[j as int].expiration, current_block_height) {
                assert(stable[j as int] =~= Seq::<Cand>::empty());
                assert(spec_best(stable[j as int], Seq::empty()) is None);
                assert(false);
            }
        }
        let ghost jj = j as int;
        let ghost outcomes0 = outcomes@;
        let ghost claimed0 = claimed@;
        match best_candidate(&table[j], &claimed) {
            Some(k) => {
                let ghost c = stable[jj][k as int];
                proof {
                    lemma_best_in(stable[jj], claimed0);
                    lemma_candidates_provenance(intents@[jj], proposals@[jj]@, agents);
                    assert(stable[jj] == spec_candidates(intents@[jj], proposals@[jj]@, agents));
                    let w = choose|w: int| 0 <= w < stable[jj].len() && stable[jj][w] == c;
                    assert(admissible_assignment(
                        intents@[jj],
                        proposals@[jj]@,
                        agents,
                        stable[jj][w].agent_id@,
                    ));
                    assert(!claimed_has(claimed0, c.agent_id@));
                }
                let id = table[j][k].agent_id.clone();
                let marker = MatchOutcome::Assigned(id.clone());
                set_at(&mut outcomes, j, marker);
                claimed.push(id);
                proof {
                    assert(outcomes@ == outcomes0.update(jj, MatchOutcome::Assigned(c.agent_id)));
                    assert(claimed@ == claimed0.push(c.agent_id));
                    assert(spec_assign(rem, stable, outcomes0, claimed0) == spec_assign(
                        rem.skip(1),
                        stable,
                        outcomes@,
                        claimed@,
                    ));
                    assert(claimed@[claimed@.len() - 1]@ == c.agent_id@);
                    assert(forall|w: int|
                        0 <= w < claimed0.len() ==> #[trigger] claimed@[w] == claimed0[w]);
                    assert forall|k2: int|
                        0 <= k2 < outcomes@.len() && (#[trigger] outcomes@[k2])
                            is Assigned implies claimed_has(
                        claimed@,
                        (outcomes@[k2]->Assigned_0)@,
                    ) by {
                        if k2 == jj {
                            assert(claimed@[claimed@.len() - 1]@ == (outcomes@[k2]->Assigned_0)@);
                        } else {
                            assert(outcomes0[k2] == outcomes@[k2]);
                            let idv = (outcomes@[k2]->Assigned_0)@;
                            assert(claimed_has(claimed0, idv));
                            let w = choose|w: int|
                                0 <= w < claimed0.len() && claimed0[w]@ == idv;
                            assert(claimed@[w]@ == idv);
                        }
                    }
                    assert forall|k1: int, k2: int|
                        0 <= k1 < outcomes@.len() && 0 <= k2 < outcomes@.len() && k1 != k2 && (
                        #[trigger] outcomes@[k1]) is Assigned && (#[trigger] outcomes@[k2])
                            is Assigned implies (outcomes@[k1]->Assigned_0)@
                        != (outcomes@[k2]->Assigned_0)@ by {
                        if k1 == jj {
                            assert(outcomes0[k2] == outcomes@[k2]);
                            assert(claimed_has(claimed0, (outcomes@[k2]->Assigned_0)@));
                        } else if k2 == jj {
                            assert(outcomes0[k1] == outcomes@[k1]);
                            assert(claimed_has(claimed0, (outcomes@[k1]->Assigned_0)@));
                        } else {
                            assert(outcomes0[k1] == outcomes@[k1]);
                            assert(outcomes0[k2] == outcomes@[k2]);
                        }
                    }
                    assert forall|k2: int| 0 <= k2 < outcomes@.len() implies ((
                    #[trigger] outcomes@[k2]) is Expired <==> spec_expired(
                        intents@[k2].expiration,
                        current_block_height,
                    )) by {
                        if k2 != jj {
                            assert(outcomes0[k2] == outcomes@[k2]);
                        }
                    }
                    assert forall|k2: int|
                        0 <= k2 < outcomes@.len() && (#[trigger] outcomes@[k2])
                            is Assigned implies admissible_assignment(
                        intents@[k2],
                        proposals@[k2]@,
                        agents,
                        (outcomes@[k2]->Assigned_0)@,
                    ) by {
                        if k2 != jj {
                            assert(outcomes0[k2] == outcomes@[k2]);
                        }
                    }
                }
            },
            None => {},
        }
        q = q + 1;
    }
    assert(sorder.skip(order@.len() as int) =~= Seq::<usize>::empty());
    outcomes
}

/// Matching determinism: two outcome sequences computed for identical
/// intents, proposals, registry contents and block height are identical,
/// assignment for assignment. This holds because a round's result is
/// exactly [`spec_match_round`] of those inputs.
pub proof fn lemma_match_round_deterministic(
    intents: Seq<Intent>,
    proposals: Seq<Vec<Proposal>>,
    agents: Seq<Agent>,
    height: u64,
    r1: Seq<MatchOutcome>,
    r2: Seq<MatchOutcome>,
)
    requires
        r1 == spec_match_round(intents, proposals, agents, height),
        r2 == spec_match_round(intents, proposals, agents, height),
    ensures
        r1 == r2,
{
}

} // verus!
