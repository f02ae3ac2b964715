use sleipnir::handshake::{step, ConnectionAction, ConnectionEvent, ConnectionState};
use sleipnir::models::{ActionStatus, AgentActionFrame, HandshakeResolutionFrame, PayloadType};
use sleipnir::policy::{CompiledToolPolicy, PolicyEngine, RiskTier};

fn tool_frame(tx: &str, agent: &str, tool: &str, args: &str) -> AgentActionFrame {
    AgentActionFrame {
        transaction_id: tx.to_string(),
        agent_id: agent.to_string(),
        timestamp: 123456,
        payload: PayloadType::ToolInvocation { tool_name: tool.to_string(), arguments: args.to_string() },
        context_monologue: Some("Testing tool invocation".to_string()),
    }
}

fn verify_policy(tool: &str) -> PolicyEngine {
    let mut engine = PolicyEngine::new();
    engine.insert(tool.to_string(), CompiledToolPolicy { risk_tier: RiskTier::Verify, patterns: vec![] });
    engine
}

fn logs(actions: &[ConnectionAction]) -> Vec<String> {
    actions
        .iter()
        .filter_map(|a| match a {
            ConnectionAction::Log(s) => Some(s.clone()),
            _ => None,
        })
        .collect()
}

fn responses(actions: &[ConnectionAction]) -> Vec<HandshakeResolutionFrame> {
    actions
        .iter()
        .filter_map(|a| match a {
            ConnectionAction::Respond(r) => Some(r.clone()),
            _ => None,
        })
        .collect()
}

#[test]
fn approved_round_trip_decisions() {
    let policy = PolicyEngine::default();
    let frame = tool_frame("tx_123", "test_agent", "execute_bash", "{\"cmd\":\"ls\"}");
    let (state, actions) = step(ConnectionState::AwaitingFrame, ConnectionEvent::Received(frame), &policy);
    assert!(matches!(state, ConnectionState::AwaitingFrame));
    assert_eq!(
        logs(&actions),
        vec!["Parsed frame: tx=tx_123, agent=test_agent".to_string(), "Auto-Approved transaction: tx_123".to_string()]
    );
    let r = responses(&actions);
    assert_eq!(r.len(), 1);
    assert_eq!(r[0].transaction_id, "tx_123");
    assert_eq!(r[0].status, ActionStatus::Approved);
    assert!(r[0].mutated_payload.is_none());
}

#[test]
fn verified_tool_waits_for_the_operator() {
    let policy = verify_policy("execute_sql");
    let frame = tool_frame("tx_3", "agent_alpha", "execute_sql", "{\"query\": \"SELECT * FROM test\"}");
    let (state, actions) = step(ConnectionState::AwaitingFrame, ConnectionEvent::Received(frame), &policy);
    assert_eq!(actions.len(), 2);
    assert!(matches!(&actions[1], ConnectionAction::Escalate { transaction_id } if transaction_id == "tx_3"));
    assert!(responses(&actions).is_empty());
    match &state {
        ConnectionState::AwaitingOperator { transaction_id, tool_name } => {
            assert_eq!(transaction_id, "tx_3");
            assert_eq!(tool_name, "execute_sql");
        }
        _ => panic!("expected a held invocation"),
    }
    let (state, actions) =
        step(state, ConnectionEvent::OperatorReply(Some((ActionStatus::Approved, None))), &policy);
    assert!(matches!(state, ConnectionState::AwaitingFrame));
    assert_eq!(logs(&actions), vec!["Approved transaction: tx_3".to_string()]);
    let r = responses(&actions);
    assert_eq!(r.len(), 1);
    assert_eq!(r[0].transaction_id, "tx_3");
    assert_eq!(r[0].status, ActionStatus::Approved);
    assert!(r[0].mutated_payload.is_none());
}

#[test]
fn denied_tier_also_waits() {
    let mut policy = PolicyEngine::new();
    policy.insert("rm".to_string(), CompiledToolPolicy { risk_tier: RiskTier::Deny, patterns: vec![] });
    let frame = tool_frame("tx_9", "a", "rm", "{}");
    let (state, _) = step(ConnectionState::AwaitingFrame, ConnectionEvent::Received(frame), &policy);
    assert!(matches!(state, ConnectionState::AwaitingOperator { .. }));
}

#[test]
fn mutation_rewrites_the_arguments_of_the_same_tool() {
    let policy = verify_policy("execute_sql");
    let frame = tool_frame("tx_m", "agent", "execute_sql", "{\"query\": \"DROP DATABASE\"}");
    let (state, _) = step(ConnectionState::AwaitingFrame, ConnectionEvent::Received(frame), &policy);
    let reply = Some((ActionStatus::Mutated, Some("{\"query\": \"SELECT 1\"}".to_string())));
    let (_, actions) = step(state, ConnectionEvent::OperatorReply(reply), &policy);
    assert_eq!(logs(&actions), vec!["Mutated transaction: tx_m".to_string()]);
    let r = responses(&actions);
    assert_eq!(r[0].status, ActionStatus::Mutated);
    assert_eq!(
        r[0].mutated_payload,
        Some(PayloadType::ToolInvocation {
            tool_name: "execute_sql".to_string(),
            arguments: "{\"query\": \"SELECT 1\"}".to_string(),
        })
    );
}

#[test]
fn mutation_without_text_sends_no_payload() {
    let policy = verify_policy("execute_sql");
    let state = ConnectionState::AwaitingOperator { transaction_id: "t".to_string(), tool_name: "execute_sql".to_string() };
    let (_, actions) = step(state, ConnectionEvent::OperatorReply(Some((ActionStatus::Mutated, None))), &policy);
    let r = responses(&actions);
    assert_eq!(r[0].status, ActionStatus::Mutated);
    assert!(r[0].mutated_payload.is_none());
}

#[test]
fn text_with_a_denial_is_not_sent() {
    let policy = verify_policy("execute_sql");
    let state = ConnectionState::AwaitingOperator { transaction_id: "t".to_string(), tool_name: "execute_sql".to_string() };
    let reply = Some((ActionStatus::Denied, Some("x".to_string())));
    let (_, actions) = step(state, ConnectionEvent::OperatorReply(reply), &policy);
    let r = responses(&actions);
    assert_eq!(r[0].status, ActionStatus::Denied);
    assert!(r[0].mutated_payload.is_none());
}

#[test]
fn closed_reply_channel_denies() {
    let policy = verify_policy("execute_sql");
    let state = ConnectionState::AwaitingOperator { transaction_id: "tx_c".to_string(), tool_name: "execute_sql".to_string() };
    let (state, actions) = step(state, ConnectionEvent::OperatorReply(None), &policy);
    assert!(matches!(state, ConnectionState::AwaitingFrame));
    assert_eq!(logs(&actions), vec!["Denied transaction: tx_c".to_string()]);
    let r = responses(&actions);
    assert_eq!(r[0].transaction_id, "tx_c");
    assert_eq!(r[0].status, ActionStatus::Denied);
}

#[test]
fn stream_update_is_logged_only() {
    let policy = PolicyEngine::new();
    let frame = AgentActionFrame {
        transaction_id: "tx_s".to_string(),
        agent_id: "agent".to_string(),
        timestamp: 1,
        payload: PayloadType::StreamUpdate { data: "thinking".to_string() },
        context_monologue: None,
    };
    let (state, actions) = step(ConnectionState::AwaitingFrame, ConnectionEvent::Received(frame), &policy);
    assert!(matches!(state, ConnectionState::AwaitingFrame));
    assert_eq!(actions.len(), 1);
    assert_eq!(logs(&actions), vec!["Parsed frame: tx=tx_s, agent=agent".to_string()]);
}

#[test]
fn garbage_and_stream_end() {
    let policy = PolicyEngine::new();
    let (state, actions) = step(ConnectionState::AwaitingFrame, ConnectionEvent::Unparsable, &policy);
    assert!(matches!(state, ConnectionState::AwaitingFrame));
    assert!(actions.is_empty());
    let (state, actions) = step(state, ConnectionEvent::StreamEnded, &policy);
    assert!(matches!(state, ConnectionState::Closed { failed: false }));
    assert!(actions.is_empty());
    let (state, _) = step(ConnectionState::AwaitingFrame, ConnectionEvent::StreamFailed, &policy);
    assert!(matches!(state, ConnectionState::Closed { failed: true }));
    let (state, actions) = step(state, ConnectionEvent::Unparsable, &policy);
    assert!(matches!(state, ConnectionState::Closed { failed: true }));
    assert!(actions.is_empty());
}

#[test]
fn frames_while_held_are_ignored() {
    let policy = verify_policy("execute_sql");
    let state = ConnectionState::AwaitingOperator { transaction_id: "t1".to_string(), tool_name: "execute_sql".to_string() };
    let frame = tool_frame("t2", "a", "execute_sql", "{}");
    let (state, actions) = step(state, ConnectionEvent::Received(frame), &policy);
    assert!(actions.is_empty());
    assert!(matches!(state, ConnectionState::AwaitingOperator { transaction_id, .. } if transaction_id == "t1"));
}

#[test]
fn five_held_invocations_each_escalate_and_resolve() {
    let policy = verify_policy("execute_sql");
    let mut block_count = 0;
    for i in 0..5 {
        let mut frame = tool_frame(&format!("tx_{}", i), "agent_alpha", "execute_sql", "{\"query\": \"SELECT * FROM test\"}");
        frame.timestamp = 1000;
        frame.context_monologue = None;
        let (state, actions) = step(ConnectionState::AwaitingFrame, ConnectionEvent::Received(frame), &policy);
        for a in &actions {
            if let ConnectionAction::Escalate { transaction_id } = a {
                assert!(transaction_id.starts_with("tx_"));
                block_count += 1;
            }
        }
        let (_, actions) = step(state, ConnectionEvent::OperatorReply(Some((ActionStatus::Approved, None))), &policy);
        let r = responses(&actions);
        assert_eq!(r.len(), 1);
        assert_eq!(r[0].transaction_id, format!("tx_{}", i));
        assert_eq!(r[0].status, ActionStatus::Approved);
    }
    assert_eq!(block_count, 5, "Server dropped frames during concurrency spike!");
}

#[test]
fn allowed_tool_with_threatening_arguments_waits() {
    let mut policy = PolicyEngine::new();
    policy.insert(
        "execute_bash".to_string(),
        CompiledToolPolicy { risk_tier: RiskTier::Allow, patterns: vec![r"rm\s+-rf".to_string()] },
    );
    let safe = tool_frame("tx_ls", "a", "execute_bash", "{\"cmd\":\"ls\"}");
    let (state, actions) = step(ConnectionState::AwaitingFrame, ConnectionEvent::Received(safe), &policy);
    assert!(matches!(state, ConnectionState::AwaitingFrame));
    assert_eq!(responses(&actions)[0].status, ActionStatus::Approved);
    let risky = tool_frame("tx_rm", "a", "execute_bash", "{\"cmd\":\"rm -rf /\"}");
    let (state, actions) = step(ConnectionState::AwaitingFrame, ConnectionEvent::Received(risky), &policy);
    assert!(matches!(state, ConnectionState::AwaitingOperator { .. }));
    assert!(responses(&actions).is_empty());
}
