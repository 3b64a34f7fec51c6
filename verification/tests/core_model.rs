use chimera_core::agent::Agent;
use chimera_core::agent::IntentProcessor;
use chimera_core::agent::Reputation;
use chimera_core::dsl::ingest;
use chimera_core::dsl::Constraint;
use chimera_core::dsl::Dex;
use chimera_core::dsl::Expiration;
use chimera_core::dsl::Intent;
use chimera_core::dsl::Preference;
use chimera_core::dsl::ValidationError;
use chimera_core::registry::ExecutionResult;
use chimera_core::registry::Registry;
use chimera_core::registry::RegistryError;

#[test]
fn it_works() {
    let agent = Agent { id: "agent-007".to_string(), ..Default::default() };

    let intent = Intent::new_yield_farming_intent(100_000);
    let result = agent.process_intent(&intent);

    assert!(result.contains(&agent.id));
    assert!(result.contains(&intent.name));
}

#[test]
fn process_intent_report_is_exact() {
    let agent = Agent { id: "agent-007".to_string(), ..Default::default() };
    let intent = Intent::new_yield_farming_intent(100_000);
    assert_eq!(
        agent.process_intent(&intent),
        "Agent agent-007 is processing intent: YieldFarming"
    );
}

#[test]
fn default_reputation_trusts_uptime() {
    let rep = Reputation::default();
    assert_eq!(rep.uptime, 1_000_000);
    assert_eq!(rep.score, 0);
    assert_eq!(rep.accuracy, 0);
    assert_eq!(rep.gas_efficiency, 0);
    assert_eq!(rep.proof_time, 0);
    assert_eq!(rep.stake, 0);
}

#[test]
fn zero_gas_efficiency_contributes_nothing() {
    let mut rep = Reputation {
        score: 0,
        accuracy: 500_000,
        gas_efficiency: 0,
        proof_time: 123,
        uptime: 1_000_000,
        stake: 100,
    };
    rep.update();
    // (4 * 500_000 + 0 + 2 * 1_000_000 + 100) / 10
    assert_eq!(rep.score, 400_010);
}

#[test]
fn update_formula_exact_value() {
    let mut rep = Reputation {
        score: 0,
        accuracy: 800_000,
        gas_efficiency: 2_000_000,
        proof_time: 0,
        uptime: 900_000,
        stake: 1_000_000,
    };
    rep.update();
    // gas term: 10^12 / 2_000_000 = 500_000
    // (4 * 800_000 + 3 * 500_000 + 2 * 900_000 + 1_000_000) / 10
    assert_eq!(rep.score, 750_000);
}

#[test]
fn yield_farming_intent_shape() {
    let intent = Intent::new_yield_farming_intent(100_000);
    assert_eq!(intent.name, "YieldFarming");
    assert_eq!(intent.target, "Portfolio ROI >= 15% APY");
    assert_eq!(intent.expiration, Expiration::AtBlock(105_000));
    assert_eq!(intent.constraints.len(), 2);
    assert_eq!(intent.constraints[0], Constraint::MaxDrawdown(50_000));
    assert_eq!(
        intent.constraints[1],
        Constraint::AllowedDexes(vec![Dex::UniswapV3, Dex::CurveFi, Dex::PancakeSwap])
    );
    assert_eq!(
        intent.preferences,
        vec![Preference::MevResistant, Preference::CarbonNeutral]
    );
    assert!(intent.validate().is_ok());
}

#[test]
fn validation_rejects_out_of_range_drawdown() {
    let r = Intent::new(
        "bad".to_string(),
        "goal".to_string(),
        vec![Constraint::MaxDrawdown(1_000_001)],
        vec![],
        Expiration::Never,
    );
    assert_eq!(r.unwrap_err(), ValidationError::DrawdownOutOfRange);
}

#[test]
fn validation_rejects_conflicting_drawdowns() {
    let r = Intent::new(
        "bad".to_string(),
        "goal".to_string(),
        vec![Constraint::MaxDrawdown(50_000), Constraint::MaxDrawdown(40_000)],
        vec![],
        Expiration::Never,
    );
    assert_eq!(r.unwrap_err(), ValidationError::ConflictingDrawdowns);
}

#[test]
fn validation_accepts_repeated_equal_drawdowns() {
    let r = Intent::new(
        "ok".to_string(),
        "goal".to_string(),
        vec![Constraint::MaxDrawdown(50_000), Constraint::MaxDrawdown(50_000)],
        vec![],
        Expiration::Never,
    );
    assert!(r.is_ok());
}

#[test]
fn validation_rejects_oversized_rule_lists() {
    let mut constraints = Vec::new();
    for _ in 0..1001 {
        constraints.push(Constraint::Custom("c".to_string()));
    }
    let r = Intent::new(
        "bad".to_string(),
        "goal".to_string(),
        constraints,
        vec![],
        Expiration::Never,
    );
    assert_eq!(r.unwrap_err(), ValidationError::TooManyConstraints);

    let mut preferences = Vec::new();
    for _ in 0..1001 {
        preferences.push(Preference::Custom("p".to_string()));
    }
    let r = Intent::new(
        "bad".to_string(),
        "goal".to_string(),
        vec![],
        preferences,
        Expiration::Never,
    );
    assert_eq!(r.unwrap_err(), ValidationError::TooManyPreferences);
}

#[test]
fn ingest_accepts_valid_batch_and_rejects_malformed() {
    let good = Intent::new_yield_farming_intent(100_000);
    let batch = ingest(vec![good.clone()]).unwrap();
    assert_eq!(batch.len(), 1);

    let bad = Intent {
        name: "bad".to_string(),
        target: "goal".to_string(),
        constraints: vec![Constraint::MaxDrawdown(2_000_000)],
        preferences: vec![],
        expiration: Expiration::Never,
    };
    let r = ingest(vec![good, bad]);
    assert_eq!(r.unwrap_err(), ValidationError::DrawdownOutOfRange);
}

#[test]
fn registry_upsert_and_get() {
    let mut registry = Registry::new();
    let agent = Agent { id: "agent-007".to_string(), reputation: Reputation::default() };
    registry.upsert(agent);
    let got = registry.get(&"agent-007".to_string()).unwrap();
    assert_eq!(got.id, "agent-007");
    assert_eq!(got.reputation.uptime, 1_000_000);
    assert_eq!(registry.snapshot().len(), 1);
}

#[test]
fn registry_get_unknown_id_is_not_found() {
    let registry = Registry::new();
    let r = registry.get(&"nobody".to_string());
    assert_eq!(r.unwrap_err(), RegistryError::NotFound);
}

#[test]
fn registry_upsert_replaces_same_id() {
    let mut registry = Registry::new();
    let mut rep = Reputation::default();
    registry.upsert(Agent { id: "agent-007".to_string(), reputation: rep });
    rep.stake = 42;
    registry.upsert(Agent { id: "agent-007".to_string(), reputation: rep });
    assert_eq!(registry.snapshot().len(), 1);
    assert_eq!(registry.get(&"agent-007".to_string()).unwrap().reputation.stake, 42);
}

#[test]
fn registry_keeps_insertion_order() {
    let mut registry = Registry::new();
    registry.upsert(Agent { id: "beta".to_string(), reputation: Reputation::default() });
    registry.upsert(Agent { id: "alpha".to_string(), reputation: Reputation::default() });
    let agents = registry.snapshot();
    assert_eq!(agents[0].id, "beta");
    assert_eq!(agents[1].id, "alpha");
}

#[test]
fn record_result_updates_score_exactly() {
    let mut registry = Registry::new();
    registry.upsert(Agent { id: "agent-007".to_string(), reputation: Reputation::default() });
    let res = ExecutionResult {
        agent_id: "agent-007".to_string(),
        intent_name: "YieldFarming".to_string(),
        success: true,
        accuracy: 500_000,
        gas_efficiency: 2_000_000,
        proof_time: 10_000,
    };
    registry.record_result(&res).unwrap();
    let got = registry.get(&"agent-007".to_string()).unwrap();
    assert_eq!(got.reputation.accuracy, 500_000);
    assert_eq!(got.reputation.gas_efficiency, 2_000_000);
    assert_eq!(got.reputation.proof_time, 10_000);
    assert_eq!(got.reputation.uptime, 1_000_000);
    // (4 * 500_000 + 3 * 500_000 + 2 * 1_000_000 + 0) / 10
    assert_eq!(got.reputation.score, 550_000);
}

#[test]
fn record_result_unknown_agent_is_not_found() {
    let mut registry = Registry::new();
    let res = ExecutionResult {
        agent_id: "nobody".to_string(),
        intent_name: "YieldFarming".to_string(),
        success: false,
        accuracy: 0,
        gas_efficiency: 0,
        proof_time: 0,
    };
    assert_eq!(registry.record_result(&res).unwrap_err(), RegistryError::NotFound);
}

#[test]
fn stale_feedback_for_expired_intent_is_discarded() {
    let mut registry = Registry::new();
    registry.upsert(Agent { id: "agent-007".to_string(), reputation: Reputation::default() });
    let res = ExecutionResult {
        agent_id: "agent-007".to_string(),
        intent_name: "YieldFarming".to_string(),
        success: true,
        accuracy: 500_000,
        gas_efficiency: 2_000_000,
        proof_time: 10_000,
    };
    let applied = registry
        .record_result_unless_expired(&res, &Expiration::AtBlock(105_000), 106_000)
        .unwrap();
    assert!(!applied);
    assert_eq!(registry.get(&"agent-007".to_string()).unwrap().reputation.score, 0);

    let applied = registry
        .record_result_unless_expired(&res, &Expiration::AtBlock(105_000), 104_000)
        .unwrap();
    assert!(applied);
    assert_eq!(registry.get(&"agent-007".to_string()).unwrap().reputation.score, 550_000);
}
