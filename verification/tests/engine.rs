use chimera_core::agent::Agent;
use chimera_core::agent::Reputation;
use chimera_core::dsl::Constraint;
use chimera_core::dsl::Dex;
use chimera_core::dsl::Expiration;
use chimera_core::dsl::Intent;
use chimera_core::dsl::Preference;
use chimera_core::evaluator::evaluate;
use chimera_core::evaluator::InadmissibleReason;
use chimera_core::evaluator::Plan;
use chimera_core::evaluator::Verdict;
use chimera_core::matching::match_round;
use chimera_core::matching::MatchOutcome;
use chimera_core::matching::Proposal;
use chimera_core::registry::Registry;

fn outcome_eq(a: &MatchOutcome, b: &MatchOutcome) -> bool {
    match (a, b) {
        (MatchOutcome::Assigned(x), MatchOutcome::Assigned(y)) => x == y,
        (MatchOutcome::Expired, MatchOutcome::Expired) => true,
        (MatchOutcome::Unfulfillable, MatchOutcome::Unfulfillable) => true,
        _ => false,
    }
}

fn assigned_to(outcome: &MatchOutcome) -> Option<String> {
    match outcome {
        MatchOutcome::Assigned(id) => Some(id.clone()),
        _ => None,
    }
}

fn conservative_plan() -> Plan {
    Plan {
        dexes: vec![Dex::UniswapV3],
        projected_drawdown: 30_000,
        mev_resistant: true,
        carbon_neutral: true,
        custom_attributes: vec![],
    }
}

fn reputable_agent(id: &str) -> Agent {
    // (4 * 1_000_000 + 0 + 2 * 1_000_000 + 2_000_000) / 10 == 800_000
    let mut rep = Reputation {
        score: 0,
        accuracy: 1_000_000,
        gas_efficiency: 0,
        proof_time: 0,
        uptime: 1_000_000,
        stake: 2_000_000,
    };
    rep.update();
    assert_eq!(rep.score, 800_000);
    Agent { id: id.to_string(), reputation: rep }
}

#[test]
fn yield_farming_plan_is_admissible() {
    let intent = Intent::new_yield_farming_intent(100_000);
    let verdict = evaluate(&intent, &conservative_plan());
    // Both preferences are satisfied: one SCALE each.
    assert_eq!(verdict, Verdict::Admissible(2_000_000));
}

#[test]
fn foreign_dex_is_inadmissible() {
    let intent = Intent::new(
        "YieldFarming".to_string(),
        "Portfolio ROI >= 15% APY".to_string(),
        vec![
            Constraint::MaxDrawdown(50_000),
            Constraint::AllowedDexes(vec![Dex::UniswapV3, Dex::CurveFi]),
        ],
        vec![Preference::MevResistant, Preference::CarbonNeutral],
        Expiration::AtBlock(105_000),
    )
    .unwrap();
    let mut plan = conservative_plan();
    plan.dexes = vec![Dex::PancakeSwap];
    assert_eq!(
        evaluate(&intent, &plan),
        Verdict::Inadmissible(InadmissibleReason::DexNotAllowed)
    );
}

#[test]
fn excessive_drawdown_is_inadmissible() {
    let intent = Intent::new_yield_farming_intent(100_000);
    let mut plan = conservative_plan();
    plan.projected_drawdown = 60_000;
    assert_eq!(
        evaluate(&intent, &plan),
        Verdict::Inadmissible(InadmissibleReason::DrawdownExceeded)
    );
}

#[test]
fn unknown_custom_constraint_fails_closed() {
    let intent = Intent::new(
        "audited".to_string(),
        "goal".to_string(),
        vec![Constraint::Custom("kyc-checked".to_string())],
        vec![],
        Expiration::Never,
    )
    .unwrap();
    let plan = conservative_plan();
    assert_eq!(
        evaluate(&intent, &plan),
        Verdict::Inadmissible(InadmissibleReason::CustomUnsatisfied)
    );
    let mut granted = conservative_plan();
    granted.custom_attributes = vec!["kyc-checked".to_string()];
    assert_eq!(evaluate(&intent, &granted), Verdict::Admissible(0));
}

#[test]
fn custom_preference_scores_when_granted() {
    let intent = Intent::new(
        "green".to_string(),
        "goal".to_string(),
        vec![],
        vec![Preference::Custom("solar-powered".to_string())],
        Expiration::Never,
    )
    .unwrap();
    let mut plan = conservative_plan();
    plan.mev_resistant = false;
    plan.carbon_neutral = false;
    assert_eq!(evaluate(&intent, &plan), Verdict::Admissible(0));
    plan.custom_attributes = vec!["solar-powered".to_string()];
    assert_eq!(evaluate(&intent, &plan), Verdict::Admissible(1_000_000));
}

#[test]
fn evaluate_is_idempotent() {
    let intent = Intent::new_yield_farming_intent(100_000);
    let plan = conservative_plan();
    let first = evaluate(&intent, &plan);
    let second = evaluate(&intent, &plan);
    assert_eq!(first, second);
}

#[test]
fn sole_admissible_candidate_is_assigned() {
    let mut registry = Registry::new();
    registry.upsert(reputable_agent("agent-007"));
    let intents = vec![Intent::new_yield_farming_intent(100_000)];
    let proposals = vec![vec![Proposal {
        agent_id: "agent-007".to_string(),
        plan: conservative_plan(),
    }]];
    let outcomes = match_round(&intents, &proposals, &registry, 100_000);
    assert_eq!(outcomes.len(), 1);
    assert_eq!(assigned_to(&outcomes[0]).unwrap(), "agent-007");
}

#[test]
fn past_expiration_is_expired_regardless_of_candidates() {
    let mut registry = Registry::new();
    registry.upsert(reputable_agent("agent-007"));
    let intents = vec![Intent::new_yield_farming_intent(100_000)];
    let proposals = vec![vec![Proposal {
        agent_id: "agent-007".to_string(),
        plan: conservative_plan(),
    }]];
    let outcomes = match_round(&intents, &proposals, &registry, 106_000);
    assert!(outcome_eq(&outcomes[0], &MatchOutcome::Expired));
}

#[test]
fn expiration_boundary_height_is_expired() {
    let mut registry = Registry::new();
    registry.upsert(reputable_agent("agent-007"));
    let intents = vec![Intent::new_yield_farming_intent(100_000)];
    let proposals = vec![vec![Proposal {
        agent_id: "agent-007".to_string(),
        plan: conservative_plan(),
    }]];
    let outcomes = match_round(&intents, &proposals, &registry, 105_000);
    assert!(outcome_eq(&outcomes[0], &MatchOutcome::Expired));
}

#[test]
fn never_expiring_intent_is_matched_at_any_height() {
    let mut registry = Registry::new();
    registry.upsert(reputable_agent("agent-007"));
    let intent = Intent::new(
        "Evergreen".to_string(),
        "goal".to_string(),
        vec![Constraint::MaxDrawdown(50_000)],
        vec![],
        Expiration::Never,
    )
    .unwrap();
    let proposals = vec![vec![Proposal {
        agent_id: "agent-007".to_string(),
        plan: conservative_plan(),
    }]];
    let outcomes = match_round(&vec![intent], &proposals, &registry, u64::MAX);
    assert_eq!(assigned_to(&outcomes[0]).unwrap(), "agent-007");
}

#[test]
fn no_admissible_candidate_is_unfulfillable() {
    let mut registry = Registry::new();
    registry.upsert(reputable_agent("agent-007"));
    let intents = vec![Intent::new_yield_farming_intent(100_000)];
    let mut risky = conservative_plan();
    risky.projected_drawdown = 999_999;
    let proposals = vec![vec![Proposal { agent_id: "agent-007".to_string(), plan: risky }]];
    let outcomes = match_round(&intents, &proposals, &registry, 100_000);
    assert!(outcome_eq(&outcomes[0], &MatchOutcome::Unfulfillable));
}

#[test]
fn unregistered_proposer_is_ignored() {
    let registry = Registry::new();
    let intents = vec![Intent::new_yield_farming_intent(100_000)];
    let proposals = vec![vec![Proposal {
        agent_id: "ghost".to_string(),
        plan: conservative_plan(),
    }]];
    let outcomes = match_round(&intents, &proposals, &registry, 100_000);
    assert!(outcome_eq(&outcomes[0], &MatchOutcome::Unfulfillable));
}

#[test]
fn no_agent_is_assigned_twice() {
    let mut registry = Registry::new();
    registry.upsert(reputable_agent("agent-007"));
    let intents = vec![
        Intent::new_yield_farming_intent(100_000),
        Intent::new_yield_farming_intent(100_000),
    ];
    let offer = Proposal { agent_id: "agent-007".to_string(), plan: conservative_plan() };
    let proposals = vec![vec![offer.clone()], vec![offer]];
    let outcomes = match_round(&intents, &proposals, &registry, 100_000);
    let assigned: Vec<String> = outcomes.iter().filter_map(assigned_to).collect();
    assert_eq!(assigned.len(), 1);
    assert_eq!(assigned[0], "agent-007");
    assert!(outcomes.iter().any(|o| outcome_eq(o, &MatchOutcome::Unfulfillable)));
}

#[test]
fn contended_agents_spread_over_intents() {
    let mut registry = Registry::new();
    registry.upsert(reputable_agent("strong"));
    let mut weaker = Agent { id: "weak".to_string(), reputation: Reputation::default() };
    weaker.reputation.accuracy = 500_000;
    weaker.reputation.update();
    registry.upsert(weaker);
    let intents = vec![
        Intent::new_yield_farming_intent(100_000),
        Intent::new_yield_farming_intent(100_000),
    ];
    let offers = vec![
        Proposal { agent_id: "strong".to_string(), plan: conservative_plan() },
        Proposal { agent_id: "weak".to_string(), plan: conservative_plan() },
    ];
    let proposals = vec![offers.clone(), offers];
    let outcomes = match_round(&intents, &proposals, &registry, 100_000);
    assert_eq!(assigned_to(&outcomes[0]).unwrap(), "strong");
    assert_eq!(assigned_to(&outcomes[1]).unwrap(), "weak");
}

#[test]
fn equal_scores_break_ties_by_smaller_id() {
    let mut registry = Registry::new();
    registry.upsert(reputable_agent("beta"));
    registry.upsert(reputable_agent("alpha"));
    let intents = vec![Intent::new_yield_farming_intent(100_000)];
    let proposals = vec![vec![
        Proposal { agent_id: "beta".to_string(), plan: conservative_plan() },
        Proposal { agent_id: "alpha".to_string(), plan: conservative_plan() },
    ]];
    let outcomes = match_round(&intents, &proposals, &registry, 100_000);
    assert_eq!(assigned_to(&outcomes[0]).unwrap(), "alpha");
}

#[test]
fn matching_is_deterministic_across_calls() {
    let mut registry = Registry::new();
    registry.upsert(reputable_agent("beta"));
    registry.upsert(reputable_agent("alpha"));
    registry.upsert(reputable_agent("gamma"));
    let intents = vec![
        Intent::new_yield_farming_intent(100_000),
        Intent::new_yield_farming_intent(100_000),
    ];
    let offers = vec![
        Proposal { agent_id: "beta".to_string(), plan: conservative_plan() },
        Proposal { agent_id: "alpha".to_string(), plan: conservative_plan() },
        Proposal { agent_id: "gamma".to_string(), plan: conservative_plan() },
    ];
    let proposals = vec![offers.clone(), offers];
    let first = match_round(&intents, &proposals, &registry, 100_000);
    let second = match_round(&intents, &proposals, &registry, 100_000);
    assert_eq!(first.len(), second.len());
    for (a, b) in first.iter().zip(second.iter()) {
        assert!(outcome_eq(a, b));
    }
}

#[test]
fn empty_round_yields_no_outcomes() {
    let registry = Registry::new();
    let outcomes = match_round(&vec![], &vec![], &registry, 0);
    assert!(outcomes.is_empty());
}
