//! The agent registry: the process-wide, single authoritative mapping
//! from agent id to agent.
//!
//! All mutation goes through [`Registry::upsert`] or the
//! execution-result feedback entry point [`Registry::record_result`];
//! the matching engine only ever reads a registry. Agent ids are unique:
//! upserting an agent with a known id replaces that agent in place,
//! keeping insertion order.

use vstd::prelude::*;
use crate::agent::spec_score;
use crate::dsl::Expiration;
use crate::agent::Agent;
use crate::agent::Reputation;
use crate::MAX_METRIC;
use crate::SCALE;

verus! {

/// Why a registry lookup failed.
#[derive(Debug, Clone, Copy, PartialEq, Eq, Structural)]
pub enum RegistryError {
    /// No agent with the given id is registered.
    NotFound,
}

/// The first agent in the sequence carrying the given id, if any.
pub open spec fn find_agent(agents: Seq<Agent>, id: Seq<char>) -> Option<Agent>
    decreases agents.len(),
{
    if agents.len() == 0 {
        None
    } else if agents[0].id@ == id {
        Some(agents[0])
    } else {
        find_agent(agents.skip(1), id)
    }
}

/// No two agents in the sequence share an id.
pub open spec fn ids_unique(agents: Seq<Agent>) -> bool {
    forall|i: int, j: int| 0 <= i < j < agents.len() ==> agents[i].id@ != agents[j].id@
}

/// Every agent in the sequence has a well-formed reputation.
pub open spec fn reputations_wf(agents: Seq<Agent>) -> bool {
    forall|i: int| 0 <= i < agents.len() ==> (#[trigger] agents[i]).reputation.wf()
}

/// The sequence that results from replacing the first agent with the
/// given agent's id, or appending the agent when its id is new.
pub open spec fn spec_upsert(agents: Seq<Agent>, a: Agent) -> Seq<Agent>
    decreases agents.len(),
{
    if agents.len() == 0 {
        seq![a]
    } else if agents[0].id@ == a.id@ {
        seq![a] + agents.skip(1)
    } else {
        seq![agents[0]] + spec_upsert(agents.skip(1), a)
    }
}

/// A found agent is an element of the sequence, at the first position
/// carrying its id; a missed lookup means no element carries the id.
pub proof fn lemma_find_agent(agents: Seq<Agent>, id: Seq<char>)
    ensures
        match find_agent(agents, id) {
            Some(a) => exists|i: int|
                0 <= i < agents.len() && agents[i] == a && (#[trigger] agents[i]).id@ == id,
            None => forall|i: int| 0 <= i < agents.len() ==> (#[trigger] agents[i]).id@ != id,
        },
    decreases agents.len(),
{
    if agents.len() > 0 {
        let rest = agents.skip(1);
        assert(forall|i: int| 0 <= i < rest.len() ==> rest[i] == agents[i + 1]);
        if agents[0].id@ == id {
            assert(agents[0] == agents[0] && agents[0].id@ == id);
        } else {
            lemma_find_agent(rest, id);
            match find_agent(rest, id) {
                Some(a) => {
                    let i = choose|i: int|
                        0 <= i < rest.len() && rest[i] == a && (#[trigger] rest[i]).id@ == id;
                    assert(agents[i + 1] == a && agents[i + 1].id@ == id);
                },
                None => {
                    assert forall|i: int| 0 <= i < agents.len() implies (#[trigger] agents[i]).id@
                        != id by {
                        if i > 0 {
                            assert(rest[i - 1].id@ != id);
                        }
                    }
                },
            }
        }
    }
}

/// A found agent has a well-formed reputation whenever the whole
/// sequence does.
pub proof fn lemma_find_agent_wf(agents: Seq<Agent>, id: Seq<char>)
    requires
        reputations_wf(agents),
        find_agent(agents, id) is Some,
    ensures
        (find_agent(agents, id) matches Some(a) ==> a.reputation.wf() && a.id@ == id),
{
    lemma_find_agent(agents, id);
}

/// Replacing at the first matching index: when the ids before `k` all
/// differ from `a`'s and the id at `k` matches, the upsert is an update
/// at `k`.
pub proof fn lemma_upsert_replaces(agents: Seq<Agent>, a: Agent, k: int)
    requires
        0 <= k < agents.len(),
        agents[k].id@ == a.id@,
        forall|i: int| 0 <= i < k ==> (#[trigger] agents[i]).id@ != a.id@,
    ensures
        spec_upsert(agents, a) =~= agents.update(k, a),
    decreases agents.len(),
{
    let rest = agents.skip(1);
    assert(forall|i: int| 0 <= i < rest.len() ==> rest[i] == agents[i + 1]);
    if k == 0 {
        assert(spec_upsert(agents, a) == seq![a] + rest);
    } else {
        lemma_upsert_replaces(rest, a, k - 1);
        assert(spec_upsert(agents, a) == seq![agents[0]] + rest.update(k - 1, a));
    }
}

/// Appending a new id: when no id in the sequence matches `a`'s, the
/// upsert is a push.
pub proof fn lemma_upsert_appends(agents: Seq<Agent>, a: Agent)
    requires
        forall|i: int| 0 <= i < agents.len() ==> (#[trigger] agents[i]).id@ != a.id@,
    ensures
        spec_upsert(agents, a) =~= agents.push(a),
    decreases agents.len(),
{
    if agents.len() > 0 {
        let rest = agents.skip(1);
        assert(forall|i: int| 0 <= i < rest.len() ==> rest[i] == agents[i + 1]);
        lemma_upsert_appends(rest, a);
    }
}

/// The process-wide store of agents, keyed by id.
#[derive(Debug)]
pub struct Registry {
    agents: Vec<Agent>,
}

impl Registry {
    /// The registered agents, in insertion order.
    pub closed spec fn agents_seq(self) -> Seq<Agent> {
        self.agents@
    }

    /// Registry invariant: unique ids, well-formed reputations.
    pub open spec fn wf(self) -> bool {
        &&& ids_unique(self.agents_seq())
        &&& reputations_wf(self.agents_seq())
    }

    /// An empty registry, as created at process start.
    pub fn new() -> (r: Registry)
        ensures
            r.wf(),
            r.agents_seq() =~= Seq::<Agent>::empty(),
    {
        Registry { agents: Vec::new() }
    }

    /// The index of the agent carrying `id`, if any: the exec face of
    /// [`find_agent`].
    fn index_of(&self, id: &String) -> (r: Option<usize>)
        ensures
            match r {
                Some(k) => k < self.agents_seq().len() && self.agents_seq()[k as int].id@ == id@
                    && find_agent(self.agents_seq(), id@) == Some(self.agents_seq()[k as int])
                    && forall|i: int|
                        0 <= i < k ==> (#[trigger] self.agents_seq()[i]).id@ != id@,
                None => find_agent(self.agents_seq(), id@) is None,
            },
    {
        let ghost s = self.agents@;
        let n = self.agents.len();
        let mut i: usize = 0;
        assert(s.skip(0) =~= s);
        while i < n
            invariant
                i <= n,
                n == s.len(),
                s == self.agents@,
                find_agent(s, id@) == find_agent(s.skip(i as int), id@),
                forall|k: int| 0 <= k < i ==> (#[trigger] s[k]).id@ != id@,
            decreases n - i,
        {
            let ghost pre = s.skip(i as int);
            assert(pre[0] == s[i as int]);
            assert(pre.skip(1) =~= s.skip(i + 1));
            if self.agents[i].id == *id {
                return Some(i);
            }
            i = i + 1;
        }
        assert(s.skip(n as int) =~= Seq::<Agent>::empty());
        None
    }

    /// Inserts a new agent or replaces the one with the same id, in
    /// place. The result is exactly [`spec_upsert`] of the old contents.
    pub fn upsert(&mut self, agent: Agent)
        requires
            old(self).wf(),
            agent.reputation.wf(),
        ensures
            final(self).wf(),
            final(self).agents_seq() == spec_upsert(old(self).agents_seq(), agent),
            find_agent(final(self).agents_seq(), agent.id@) == Some(agent),
    {
        let ghost s = self.agents@;
        match self.index_of(&agent.id) {
            Some(k) => {
                proof {
                    lemma_upsert_replaces(s, agent, k as int);
                }
                self.agents.remove(k);
                self.agents.insert(k, agent);
                assert(self.agents@ =~= s.update(k as int, agent));
                proof {
                    let t = self.agents@;
                    assert forall|i: int, j: int| 0 <= i < j < t.len() implies t[i].id@
                        != t[j].id@ by {
                        assert(s[i].id@ != s[j].id@);
                    }
                    lemma_find_agent(t, agent.id@);
                    match find_agent(t, agent.id@) {
                        Some(b) => {
                            let w = choose|i: int|
                                0 <= i < t.len() && t[i] == b && (#[trigger] t[i]).id@
                                    == agent.id@;
                            assert(w == k);
                        },
                        None => {
                            assert(t[k as int].id@ == agent.id@);
                            assert(false);
                        },
                    }
                }
            },
            None => {
                proof {
                    lemma_find_agent(s, agent.id@);
                    lemma_upsert_appends(s, agent);
                }
                self.agents.push(agent);
                proof {
                    let t = self.agents@;
                    lemma_find_agent(t, agent.id@);
                    match find_agent(t, agent.id@) {
                        Some(b) => {
                            let w = choose|i: int|
                                0 <= i < t.len() && t[i] == b && (#[trigger] t[i]).id@
                                    == agent.id@;
                            assert(w == t.len() - 1);
                        },
                        None => {
                            assert(t[t.len() - 1].id@ == agent.id@);
                            assert(false);
                        },
                    }
                }
            },
        }
    }

    /// Looks an agent up by id: the first (and only) agent carrying it,
    /// or `NotFound` when no agent does.
    pub fn get(&self, id: &String) -> (r: Result<&Agent, RegistryError>)
        ensures
            match r {
                Ok(a) => find_agent(self.agents_seq(), id@) == Some(*a),
                Err(e) => e == RegistryError::NotFound && find_agent(self.agents_seq(), id@)
                    is None,
            },
    {
        match self.index_of(id) {
            Some(k) => Ok(&self.agents[k]),
            None => Err(RegistryError::NotFound),
        }
    }

    /// A read-only view of the current contents, for one matching round
    /// or for observability tooling.
    pub fn snapshot(&self) -> (r: &Vec<Agent>)
        ensures
            r@ == self.agents_seq(),
    {
        &self.agents
    }
}

/// Execution-result feedback for one fulfilment attempt, as reported by
/// the external execution capability.
#[derive(Debug, Clone)]
pub struct ExecutionResult {
    /// The agent that executed.
    pub agent_id: String,
    /// The intent it executed, for the caller's bookkeeping.
    pub intent_name: String,
    /// Whether execution succeeded.
    pub success: bool,
    /// Measured accuracy, in `[0, SCALE]` micro-units.
    pub accuracy: u64,
    /// Measured gas efficiency, in micro-units.
    pub gas_efficiency: u64,
    /// Measured proof time, in micro-units.
    pub proof_time: u64,
}

impl ExecutionResult {
    /// Measured metrics lie within the representable ranges.
    pub open spec fn wf(self) -> bool {
        &&& self.accuracy <= SCALE
        &&& self.gas_efficiency <= MAX_METRIC
        &&& self.proof_time <= MAX_METRIC
    }
}

/// The reputation an agent carries after absorbing a measurement: the
/// measured metrics replace the stored ones and the score is recomputed
/// by the update formula.
pub open spec fn spec_absorb(a: Agent, res: ExecutionResult) -> Agent {
    let rep = Reputation {
        score: a.reputation.score,
        accuracy: res.accuracy,
        gas_efficiency: res.gas_efficiency,
        proof_time: res.proof_time,
        uptime: a.reputation.uptime,
        stake: a.reputation.stake,
    };
    Agent {
        id: a.id,
        reputation: Reputation {
            score: spec_score(rep) as u64,
            accuracy: rep.accuracy,
            gas_efficiency: rep.gas_efficiency,
            proof_time: rep.proof_time,
            uptime: rep.uptime,
            stake: rep.stake,
        },
    }
}

impl Registry {
    /// The execution-result feedback entry point: applies the measured
    /// metrics to the named agent's reputation and recomputes its score
    /// via the update formula. Fails with `NotFound`, leaving the
    /// registry unchanged, exactly when the agent id is unknown.
    pub fn record_result(&mut self, res: &ExecutionResult) -> (r: Result<(), RegistryError>)
        requires
            old(self).wf(),
            res.wf(),
        ensures
            final(self).wf(),
            match find_agent(old(self).agents_seq(), res.agent_id@) {
                Some(a) => r == Ok::<(), RegistryError>(()) && final(self).agents_seq()
                    == spec_upsert(old(self).agents_seq(), spec_absorb(a, *res)),
                None => r == Err::<(), RegistryError>(RegistryError::NotFound)
                    && final(self).agents_seq() == old(self).agents_seq(),
            },
    {
        let found = match self.get(&res.agent_id) {
            Ok(a) => Some((a.id.clone(), a.reputation)),
            Err(_) => None,
        };
        match found {
            Some((id, mut rep)) => {
                proof {
                    lemma_find_agent_wf(self.agents_seq(), res.agent_id@);
                }
                rep.accuracy = res.accuracy;
                rep.gas_efficiency = res.gas_efficiency;
                rep.proof_time = res.proof_time;
                rep.update();
                self.upsert(Agent { id, reputation: rep });
                Ok(())
            },
            None => Err(RegistryError::NotFound),
        }
    }

    /// Feedback for work whose intent may have aged out while executing:
    /// when the intent's expiration has passed at the given height the
    /// measurement is discarded (`Ok(false)`, registry unchanged, no
    /// penalty or reward for expired work) instead of applying a stale
    /// update; otherwise the result is recorded as by
    /// [`Registry::record_result`] (`Ok(true)`).
    pub fn record_result_unless_expired(
        &mut self,
        res: &ExecutionResult,
        expiration: &Expiration,
        current_block_height: u64,
    ) -> (r: Result<bool, RegistryError>)
        requires
            old(self).wf(),
            res.wf(),
        ensures
            final(self).wf(),
            crate::matching::spec_expired(*expiration, current_block_height) ==> r == Ok::<
                bool,
                RegistryError,
            >(false) && final(self).agents_seq() == old(self).agents_seq(),
            !crate::matching::spec_expired(*expiration, current_block_height) ==> match find_agent(
                old(self).agents_seq(),
                res.agent_id@,
            ) {
                Some(a) => r == Ok::<bool, RegistryError>(true) && final(self).agents_seq()
                    == spec_upsert(old(self).agents_seq(), spec_absorb(a, *res)),
                None => r == Err::<bool, RegistryError>(RegistryError::NotFound)
                    && final(self).agents_seq() == old(self).agents_seq(),
            },
    {
        if crate::matching::is_expired(expiration, current_block_height) {
            return Ok(false);
        }
        match self.record_result(res) {
            Ok(_) => Ok(true),
            Err(e) => Err(e),
        }
    }
}

} // verus!
