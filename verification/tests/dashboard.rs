use sleipnir::dashboard::{pending_suffix, AppState, InputOutcome, InteractionMode, KeyCode, ModeColor, TerminalInput, UiEvent};
use sleipnir::models::ActionStatus;

fn key(c: char) -> TerminalInput {
    TerminalInput::Key { code: KeyCode::Char(c), control: false }
}

fn no_lines() -> Vec<String> {
    Vec::new()
}

fn block(state: &mut AppState, tx: &str, ticket: u64) {
    state.apply_event(UiEvent::IncomingBlock(tx.to_string(), ticket));
}

#[test]
fn new_dashboard_streams() {
    let state = AppState::new();
    assert!(matches!(state.mode, InteractionMode::Streaming));
    assert!(state.logs.is_empty());
    assert!(state.pending_blocks.is_empty());
    assert_eq!(state.title(), " SLEIPNIR: STREAMING ");
    assert_eq!(state.color(), ModeColor::Green);
}

#[test]
fn blocks_queue_in_arrival_order() {
    let mut state = AppState::new();
    block(&mut state, "tx_a", 1);
    block(&mut state, "tx_b", 2);
    block(&mut state, "tx_c", 3);
    assert!(matches!(&state.mode, InteractionMode::Blocked(tx, 1) if tx == "tx_a"));
    assert_eq!(state.pending_blocks.len(), 2);
    assert_eq!(state.title(), " SLEIPNIR: BLOCKED (2 Pending) ");
    assert_eq!(state.color(), ModeColor::Red);

    let out = state.handle_input(key('y'), &no_lines());
    assert!(matches!(out, InputOutcome::Reply { ticket: 1, status: ActionStatus::Approved, mutated: None }));
    assert!(matches!(&state.mode, InteractionMode::Blocked(tx, 2) if tx == "tx_b"));

    let out = state.handle_input(key('n'), &no_lines());
    assert!(matches!(out, InputOutcome::Reply { ticket: 2, status: ActionStatus::Denied, mutated: None }));
    assert!(matches!(&state.mode, InteractionMode::Blocked(tx, 3) if tx == "tx_c"));
    assert_eq!(state.title(), " SLEIPNIR: BLOCKED ");

    let out = state.handle_input(TerminalInput::Key { code: KeyCode::F(8), control: false }, &no_lines());
    match out {
        InputOutcome::ExportAndDeny { transaction_id, ticket } => {
            assert_eq!(transaction_id, "tx_c");
            assert_eq!(ticket, 3);
        }
        _ => panic!("expected an export"),
    }
    assert!(matches!(state.mode, InteractionMode::Streaming));
}

#[test]
fn editing_then_submitting() {
    let mut state = AppState::new();
    block(&mut state, "tx_m", 7);
    block(&mut state, "tx_n", 8);
    let out = state.handle_input(key('m'), &no_lines());
    match out {
        InputOutcome::OpenEditor { initial_text } => assert_eq!(initial_text, "{\"query\": \"EDIT ME\"}"),
        _ => panic!("expected the editor"),
    }
    assert!(matches!(&state.mode, InteractionMode::Mutating(tx, 7) if tx == "tx_m"));
    assert_eq!(state.title(), " SLEIPNIR: MUTATING (1 Pending) (F9 to Submit, ESC to Cancel) ");
    assert_eq!(state.color(), ModeColor::Yellow);

    let out = state.handle_input(key('y'), &no_lines());
    assert!(matches!(out, InputOutcome::ForwardToEditor));
    let out = state.handle_input(TerminalInput::Other, &no_lines());
    assert!(matches!(out, InputOutcome::ForwardToEditor));

    let lines = vec!["{\"query\":".to_string(), " \"SELECT 1\"}".to_string()];
    let out = state.handle_input(TerminalInput::Key { code: KeyCode::F(9), control: false }, &lines);
    match out {
        InputOutcome::Reply { ticket, status, mutated } => {
            assert_eq!(ticket, 7);
            assert_eq!(status, ActionStatus::Mutated);
            assert_eq!(mutated.as_deref(), Some("{\"query\":\n \"SELECT 1\"}"));
        }
        _ => panic!("expected a reply"),
    }
    assert!(matches!(&state.mode, InteractionMode::Blocked(tx, 8) if tx == "tx_n"));
}

#[test]
fn escape_denies_an_edit() {
    let mut state = AppState::new();
    block(&mut state, "tx_e", 4);
    state.handle_input(key('m'), &no_lines());
    let out = state.handle_input(TerminalInput::Key { code: KeyCode::Esc, control: false }, &no_lines());
    assert!(matches!(out, InputOutcome::Reply { ticket: 4, status: ActionStatus::Denied, mutated: None }));
    assert!(matches!(state.mode, InteractionMode::Streaming));
}

#[test]
fn other_keys_leave_a_block_alone() {
    let mut state = AppState::new();
    block(&mut state, "tx_x", 1);
    for input in [key('x'), key('q'), TerminalInput::Other, TerminalInput::Key { code: KeyCode::F(9), control: false }] {
        let out = state.handle_input(input, &no_lines());
        assert!(matches!(out, InputOutcome::Nothing));
        assert!(matches!(&state.mode, InteractionMode::Blocked(tx, 1) if tx == "tx_x"));
    }
}

#[test]
fn quitting() {
    let mut state = AppState::new();
    assert!(matches!(state.handle_input(key('q'), &no_lines()), InputOutcome::Quit));
    assert!(matches!(state.handle_input(key('y'), &no_lines()), InputOutcome::Nothing));
    block(&mut state, "tx_q", 1);
    let ctrl_c = TerminalInput::Key { code: KeyCode::Char('c'), control: true };
    assert!(matches!(state.handle_input(ctrl_c, &no_lines()), InputOutcome::Quit));
    assert!(matches!(&state.mode, InteractionMode::Blocked(_, 1)));
    assert!(matches!(state.handle_input(key('c'), &no_lines()), InputOutcome::Nothing));
}

#[test]
fn log_keeps_the_latest_fifty() {
    let mut state = AppState::new();
    for i in 0..60 {
        state.apply_event(UiEvent::NewLog(format!("line {}", i)));
    }
    assert_eq!(state.logs.len(), 50);
    assert_eq!(state.logs.front().map(|s| s.as_str()), Some("line 10"));
    assert_eq!(state.logs.back().map(|s| s.as_str()), Some("line 59"));
    state.push_log("last".to_string());
    assert_eq!(state.logs.len(), 50);
    assert_eq!(state.logs.front().map(|s| s.as_str()), Some("line 11"));
}

#[test]
fn pending_suffix_counts() {
    assert_eq!(pending_suffix(0), "");
    assert_eq!(pending_suffix(1), " (1 Pending)");
    assert_eq!(pending_suffix(12), " (12 Pending)");
}
