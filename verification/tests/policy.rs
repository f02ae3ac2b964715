use sleipnir::policy::{CompiledToolPolicy, PolicyDecision, PolicyEngine, RiskTier};

fn tier(risk_tier: RiskTier) -> CompiledToolPolicy {
    CompiledToolPolicy { risk_tier, patterns: vec![] }
}

fn allow_with(patterns: &[&str]) -> CompiledToolPolicy {
    CompiledToolPolicy { risk_tier: RiskTier::Allow, patterns: patterns.iter().map(|p| p.to_string()).collect() }
}

#[test]
fn empty_policy_passes_everything() {
    let engine = PolicyEngine::default();
    assert_eq!(engine.evaluate("execute_bash", "{}"), PolicyDecision::Pass);
    assert_eq!(engine.tier_of("execute_bash"), None);
}

#[test]
fn tiers_decide() {
    let mut engine = PolicyEngine::new();
    engine.insert("a".to_string(), tier(RiskTier::Allow));
    engine.insert("v".to_string(), tier(RiskTier::Verify));
    engine.insert("d".to_string(), tier(RiskTier::Deny));
    assert_eq!(engine.evaluate("a", "{}"), PolicyDecision::Pass);
    assert_eq!(engine.evaluate("v", "{}"), PolicyDecision::Escalate);
    assert_eq!(engine.evaluate("d", "{}"), PolicyDecision::Escalate);
    assert_eq!(engine.evaluate("other", "{}"), PolicyDecision::Pass);
}

#[test]
fn insert_replaces_and_reads_back() {
    let mut engine = PolicyEngine::new();
    engine.insert("execute_sql".to_string(), tier(RiskTier::Verify));
    engine.insert("execute_bash".to_string(), tier(RiskTier::Deny));
    engine.insert("execute_sql".to_string(), tier(RiskTier::Allow));
    assert_eq!(engine.tier_of("execute_sql"), Some(RiskTier::Allow));
    assert_eq!(engine.tier_of("execute_bash"), Some(RiskTier::Deny));
    assert_eq!(engine.evaluate("execute_sql", "SELECT 1"), PolicyDecision::Pass);
}

#[test]
fn patterns_flag_arguments_of_allowed_tools() {
    let mut engine = PolicyEngine::new();
    engine.insert("execute_sql".to_string(), allow_with(&["(?i)drop\\s+database", "truncate"]));
    assert_eq!(engine.evaluate("execute_sql", "{\"query\": \"SELECT * FROM t\"}"), PolicyDecision::Pass);
    assert_eq!(engine.evaluate("execute_sql", "{\"query\": \"DROP DATABASE prod\"}"), PolicyDecision::Escalate);
    assert_eq!(engine.evaluate("execute_sql", "truncate t"), PolicyDecision::Escalate);
}

#[test]
fn pattern_matches_anywhere_not_only_whole_text() {
    let mut engine = PolicyEngine::new();
    engine.insert("t".to_string(), allow_with(&["^rm$"]));
    assert_eq!(engine.evaluate("t", "rm -rf"), PolicyDecision::Pass);
    assert_eq!(engine.evaluate("t", "rm"), PolicyDecision::Escalate);
}

#[test]
fn broken_pattern_holds_the_invocation() {
    let mut engine = PolicyEngine::new();
    engine.insert("t".to_string(), allow_with(&["(unclosed"]));
    assert_eq!(engine.evaluate("t", "anything"), PolicyDecision::Escalate);
}

#[test]
fn verify_tier_is_held_whatever_the_patterns() {
    let mut engine = PolicyEngine::new();
    engine.insert(
        "t".to_string(),
        CompiledToolPolicy { risk_tier: RiskTier::Verify, patterns: vec!["never-matches-xyz".to_string()] },
    );
    assert_eq!(engine.evaluate("t", "harmless"), PolicyDecision::Escalate);
}
