//! Agents and their reputation.
//!
//! An agent is an off-chain actor that proposes and executes plans for
//! user intents. Its reputation is a set of performance metrics together
//! with a derived, cached score; the score is only ever recomputed through
//! [`Reputation::update`], never set directly.

use vstd::prelude::*;
use crate::dsl::Intent;
use crate::MAX_METRIC;
use crate::MAX_SCORE;
use crate::SCALE;

verus! {

/// Reputation of an agent. Every field is a fixed-point quantity in
/// micro-units ([`SCALE`] micro-units stand for 1.0).
#[derive(Debug, Clone, Copy, PartialEq, Eq, Structural)]
pub struct Reputation {
    /// The overall reputation score, derived from the other fields.
    pub score: u64,
    /// Accuracy of the agent's solutions, in `[0, SCALE]`.
    pub accuracy: u64,
    /// Gas efficiency of the agent's transactions.
    pub gas_efficiency: u64,
    /// Time taken to generate proofs.
    pub proof_time: u64,
    /// The agent's uptime, in `[0, SCALE]`.
    pub uptime: u64,
    /// The amount of stake the agent has.
    pub stake: u64,
}

/// Contribution of gas efficiency to the score: the reciprocal of the
/// efficiency, in micro-units. A zero (or missing) efficiency contributes
/// nothing rather than dividing by zero; the reward for efficient agents
/// is positive but bounded.
pub open spec fn spec_gas_term(gas_efficiency: u64) -> int {
    if gas_efficiency > 0 {
        (SCALE * SCALE) as int / gas_efficiency as int
    } else {
        0
    }
}

/// The reputation score formula, over micro-unit metrics:
/// `0.4 * accuracy + 0.3 * (1 / gas_efficiency) + 0.2 * uptime + 0.1 * stake`.
pub open spec fn spec_score(r: Reputation) -> int {
    (4 * r.accuracy + 3 * spec_gas_term(r.gas_efficiency) + 2 * r.uptime + r.stake) / 10
}

impl Reputation {
    /// Well-formed reputation: ratios lie in `[0, SCALE]` and open-ended
    /// metrics are bounded so that the score arithmetic fits in `u64`.
    pub open spec fn wf(self) -> bool {
        &&& self.accuracy <= SCALE
        &&& self.uptime <= SCALE
        &&& self.gas_efficiency <= MAX_METRIC
        &&& self.proof_time <= MAX_METRIC
        &&& self.stake <= MAX_METRIC
        &&& self.score <= MAX_SCORE
    }

    /// Recomputes the cached score from the current metrics.
    ///
    /// The gas term degrades to zero when `gas_efficiency` is zero: this
    /// is a deliberate clamp, not error suppression, so the operation
    /// never divides by zero and never raises an error.
    pub fn update(&mut self)
        requires
            old(self).wf(),
        ensures
            final(self).score == spec_score(*old(self)),
            final(self).accuracy == old(self).accuracy,
            final(self).gas_efficiency == old(self).gas_efficiency,
            final(self).proof_time == old(self).proof_time,
            final(self).uptime == old(self).uptime,
            final(self).stake == old(self).stake,
            final(self).wf(),
    {
        let gas_term: u64 = if self.gas_efficiency > 0 {
            (SCALE * SCALE) / self.gas_efficiency
        } else {
            0
        };
        assert(gas_term <= SCALE * SCALE) by (nonlinear_arith)
            requires
                gas_term == spec_gas_term(self.gas_efficiency),
                self.gas_efficiency <= MAX_METRIC,
        ;
        self.score = (4 * self.accuracy + 3 * gas_term + 2 * self.uptime + self.stake) / 10;
    }
}

/// With a zero gas efficiency the gas term contributes nothing to the
/// updated score: the formula degrades to the three remaining terms, with
/// no division by zero involved.
pub proof fn lemma_zero_gas_efficiency_score(r: Reputation)
    requires
        r.gas_efficiency == 0,
    ensures
        spec_gas_term(r.gas_efficiency) == 0,
        spec_score(r) == (4 * r.accuracy + 2 * r.uptime + r.stake) / 10,
{
}

impl Default for Reputation {
    /// A new agent starts trusted: full uptime, every other metric and the
    /// score at zero (the score stays zero until the first `update`).
    fn default() -> (r: Self)
        ensures
            r.score == 0,
            r.accuracy == 0,
            r.gas_efficiency == 0,
            r.proof_time == 0,
            r.uptime == SCALE,
            r.stake == 0,
            r.wf(),
    {
        Reputation {
            score: 0,
            accuracy: 0,
            gas_efficiency: 0,
            proof_time: 0,
            uptime: SCALE,
            stake: 0,
        }
    }
}

/// An agent of the network. Identity is the `id`: two agents with equal
/// ids are the same entity.
#[derive(Debug, Clone, PartialEq)]
pub struct Agent {
    /// Unique identifier of the agent.
    pub id: String,
    /// The agent's reputation.
    pub reputation: Reputation,
}

impl Default for Agent {
    /// An agent with an empty id and a default reputation.
    fn default() -> (r: Self)
        ensures
            r.id@ == Seq::<char>::empty(),
            r.reputation.score == 0,
            r.reputation.uptime == SCALE,
            r.reputation.wf(),
    {
        Agent { id: String::new(), reputation: Reputation::default() }
    }
}

/// Behaviour shared by every kind of agent: turning an intent into some
/// processing output (in a full system, a plan, proof or transaction).
pub trait IntentProcessor {
    /// The type of output produced after processing an intent.
    type Output;

    /// Processes a given intent and returns a result.
    fn process_intent(&self, intent: &Intent) -> Self::Output;
}

impl Agent {
    /// The single-chain agent's processing report: a line naming the agent
    /// and the intent it is working on.
    pub fn describe_processing(&self, intent: &Intent) -> (r: String)
        ensures
            r@ == "Agent "@ + self.id@ + " is processing intent: "@ + intent.name@,
    {
        let mut r = String::new();
        r.append("Agent ");
        r.append(self.id.as_str());
        r.append(" is processing intent: ");
        r.append(intent.name.as_str());
        r
    }
}

impl IntentProcessor for Agent {
    type Output = String;

    fn process_intent(&self, intent: &Intent) -> Self::Output {
        self.describe_processing(intent)
    }
}

} // verus!
