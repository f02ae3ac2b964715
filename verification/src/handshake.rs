//! One agent connection, as a state machine. The caller reads frames,
//! hands each one in as an event, and carries out the actions returned:
//! dashboard log lines, holds for the operator, and resolution frames
//! written back to the agent.

use vstd::prelude::*;
use vstd::string::*;
use crate::models::{ActionFrameView, ActionStatus, AgentActionFrame, HandshakeResolutionFrame, PayloadType, PayloadView, ResolutionView, opt_text};
use crate::policy::{PolicyDecision, PolicyEngine};

verus! {

/// Where a connection stands.
pub enum ConnectionState {
    /// Waiting for the agent's next frame.
    AwaitingFrame,
    /// A tool invocation is held until the operator answers.
    AwaitingOperator { transaction_id: String, tool_name: String },
    /// The stream has ended; `failed` when it ended by an I/O error.
    Closed { failed: bool },
}

/// What happened on a connection.
pub enum ConnectionEvent {
    /// A frame was read and parsed.
    Received(AgentActionFrame),
    /// Bytes were read that do not form a frame.
    Unparsable,
    /// The operator answered the held invocation; `None` when the answer
    /// channel closed before an answer came.
    OperatorReply(Option<(ActionStatus, Option<String>)>),
    /// The agent closed the stream.
    StreamEnded,
    /// Reading or writing failed.
    StreamFailed,
}

/// What the caller must do, in order.
pub enum ConnectionAction {
    /// Show a line in the dashboard's telemetry log.
    Log(String),
    /// Hold the invocation and ask the operator; the answer comes back as
    /// an `OperatorReply` event.
    Escalate { transaction_id: String },
    /// Write the resolution to the agent.
    Respond(HandshakeResolutionFrame),
}

pub enum ConnectionStateView {
    AwaitingFrame,
    AwaitingOperator { transaction_id: Seq<char>, tool_name: Seq<char> },
    Closed { failed: bool },
}

pub enum ConnectionEventView {
    Received(ActionFrameView),
    Unparsable,
    OperatorReply(Option<(ActionStatus, Option<Seq<char>>)>),
    StreamEnded,
    StreamFailed,
}

pub enum ConnectionActionView {
    Log(Seq<char>),
    Escalate { transaction_id: Seq<char> },
    Respond(ResolutionView),
}

impl View for ConnectionState {
    type V = ConnectionStateView;

    open spec fn view(&self) -> ConnectionStateView {
        match self {
            ConnectionState::AwaitingFrame => ConnectionStateView::AwaitingFrame,
            ConnectionState::AwaitingOperator { transaction_id, tool_name } =>
                ConnectionStateView::AwaitingOperator {
                    transaction_id: transaction_id@,
                    tool_name: tool_name@,
                },
            ConnectionState::Closed { failed } => ConnectionStateView::Closed { failed: *failed },
        }
    }
}

impl View for ConnectionEvent {
    type V = ConnectionEventView;

    open spec fn view(&self) -> ConnectionEventView {
        match self {
            ConnectionEvent::Received(f) => ConnectionEventView::Received(f@),
            ConnectionEvent::Unparsable => ConnectionEventView::Unparsable,
            ConnectionEvent::OperatorReply(r) => ConnectionEventView::OperatorReply(
                match r {
                    Some((status, text)) => Some((*status, opt_text(*text))),
                    None => None,
                },
            ),
            ConnectionEvent::StreamEnded => ConnectionEventView::StreamEnded,
            ConnectionEvent::StreamFailed => ConnectionEventView::StreamFailed,
        }
    }
}

impl View for ConnectionAction {
    type V = ConnectionActionView;

    open spec fn view(&self) -> ConnectionActionView {
        match self {
            ConnectionAction::Log(s) => ConnectionActionView::Log(s@),
            ConnectionAction::Escalate { transaction_id } =>
                ConnectionActionView::Escalate { transaction_id: transaction_id@ },
            ConnectionAction::Respond(r) => ConnectionActionView::Respond(r@),
        }
    }
}

/// The views of a list of actions.
pub open spec fn action_views(actions: Seq<ConnectionAction>) -> Seq<ConnectionActionView> {
    actions.map_values(|a: ConnectionAction| a@)
}

pub open spec fn parsed_log_text(tx: Seq<char>, agent: Seq<char>) -> Seq<char> {
    "Parsed frame: tx="@ + tx + ", agent="@ + agent
}

pub open spec fn auto_approved_text(tx: Seq<char>) -> Seq<char> {
    "Auto-Approved transaction: "@ + tx
}

pub open spec fn decision_log_text(status: ActionStatus, tx: Seq<char>) -> Seq<char> {
    match status {
        ActionStatus::Approved => "Approved transaction: "@ + tx,
        ActionStatus::Denied => "Denied transaction: "@ + tx,
        ActionStatus::Mutated => "Mutated transaction: "@ + tx,
    }
}

/// The operator's answer; a closed answer channel counts as a denial.
pub open spec fn operator_answer(reply: Option<(ActionStatus, Option<Seq<char>>)>) -> (
    ActionStatus,
    Option<Seq<char>>,
) {
    match reply {
        Some(r) => r,
        None => (ActionStatus::Denied, None),
    }
}

/// The resolution of a held invocation: a rewritten payload goes back only
/// with `Mutated` and only when the operator supplied arguments; it keeps
/// the tool's name.
pub open spec fn held_resolution(
    tx: Seq<char>,
    tool: Seq<char>,
    status: ActionStatus,
    arguments: Option<Seq<char>>,
) -> ResolutionView {
    ResolutionView {
        transaction_id: tx,
        status,
        mutated_payload: match arguments {
            Some(a) if status == ActionStatus::Mutated => Some(
                PayloadView::ToolInvocation { tool_name: tool, arguments: a },
            ),
            _ => None,
        },
    }
}

/// The approval sent for an invocation the policy lets pass.
pub open spec fn approval(tx: Seq<char>) -> ResolutionView {
    ResolutionView { transaction_id: tx, status: ActionStatus::Approved, mutated_payload: None }
}

/// The next state and the actions for one event.
pub open spec fn next_step(
    state: ConnectionStateView,
    event: ConnectionEventView,
    policy: PolicyEngine,
) -> (ConnectionStateView, Seq<ConnectionActionView>) {
    match state {
        ConnectionStateView::Closed { .. } => (state, Seq::empty()),
        ConnectionStateView::AwaitingFrame => match event {
            ConnectionEventView::Received(f) => {
                let log = ConnectionActionView::Log(parsed_log_text(f.transaction_id, f.agent_id));
                match f.payload {
                    PayloadView::StreamUpdate { .. } => (state, seq![log]),
                    PayloadView::ToolInvocation { tool_name, arguments } => {
                        if policy.decision(tool_name, arguments) == PolicyDecision::Pass {
                            (
                                state,
                                seq![
                                    log,
                                    ConnectionActionView::Log(auto_approved_text(f.transaction_id)),
                                    ConnectionActionView::Respond(approval(f.transaction_id)),
                                ],
                            )
                        } else {
                            (
                                ConnectionStateView::AwaitingOperator {
                                    transaction_id: f.transaction_id,
                                    tool_name,
                                },
                                seq![
                                    log,
                                    ConnectionActionView::Escalate {
                                        transaction_id: f.transaction_id,
                                    },
                                ],
                            )
                        }
                    },
                }
            },
            ConnectionEventView::StreamEnded => (ConnectionStateView::Closed { failed: false }, Seq::empty()),
            ConnectionEventView::StreamFailed => (ConnectionStateView::Closed { failed: true }, Seq::empty()),
            _ => (state, Seq::empty()),
        },
        ConnectionStateView::AwaitingOperator { transaction_id, tool_name } => match event {
            ConnectionEventView::OperatorReply(reply) => {
                let (status, arguments) = operator_answer(reply);
                (
                    ConnectionStateView::AwaitingFrame,
                    seq![
                        ConnectionActionView::Log(decision_log_text(status, transaction_id)),
                        ConnectionActionView::Respond(
                            held_resolution(transaction_id, tool_name, status, arguments),
                        ),
                    ],
                )
            },
            ConnectionEventView::StreamEnded => (ConnectionStateView::Closed { failed: false }, Seq::empty()),
            ConnectionEventView::StreamFailed => (ConnectionStateView::Closed { failed: true }, Seq::empty()),
            _ => (state, Seq::empty()),
        },
    }
}

/// `"Parsed frame: tx=<tx>, agent=<agent>"`.
pub fn parsed_log(tx: &String, agent: &String) -> (s: String)
    ensures
        s@ == parsed_log_text(tx@, agent@),
{
    let mut s = String::from_str("Parsed frame: tx=");
    s.append(tx.as_str());
    s.append(", agent=");
    s.append(agent.as_str());
    s
}

/// `"Auto-Approved transaction: <tx>"`.
pub fn auto_approved_log(tx: &String) -> (s: String)
    ensures
        s@ == auto_approved_text(tx@),
{
    let mut s = String::from_str("Auto-Approved transaction: ");
    s.append(tx.as_str());
    s
}

/// The log line for the operator's answer, as `"<Status> transaction: <tx>"`.
pub fn decision_log(status: ActionStatus, tx: &String) -> (s: String)
    ensures
        s@ == decision_log_text(status, tx@),
{
    let mut s = match status {
        ActionStatus::Approved => String::from_str("Approved transaction: "),
        ActionStatus::Denied => String::from_str("Denied transaction: "),
        ActionStatus::Mutated => String::from_str("Mutated transaction: "),
    };
    s.append(tx.as_str());
    s
}

/// Builds the resolution of a held invocation from the operator's reply.
pub fn resolve_held(
    transaction_id: String,
    tool_name: String,
    reply: Option<(ActionStatus, Option<String>)>,
) -> (res: HandshakeResolutionFrame)
    ensures
        ({
            let reply_view = match reply {
                Some((status, text)) => Some((status, opt_text(text))),
                None => None,
            };
            let (status, arguments) = operator_answer(reply_view);
            res@ == held_resolution(transaction_id@, tool_name@, status, arguments)
        }),
{
    let (status, arguments) = match reply {
        Some(r) => r,
        None => (ActionStatus::Denied, None),
    };
    let mutated_payload = match arguments {
        Some(a) => {
            if status == ActionStatus::Mutated {
                Some(PayloadType::ToolInvocation { tool_name, arguments: a })
            } else {
                None
            }
        },
        None => None,
    };
    HandshakeResolutionFrame { transaction_id, status, mutated_payload }
}

/// Advances a connection by one event.
pub fn step(state: ConnectionState, event: ConnectionEvent, policy: &PolicyEngine) -> (res: (
    ConnectionState,
    Vec<ConnectionAction>,
))
    ensures
        res.0@ == next_step(state@, event@, *policy).0,
        action_views(res.1@) =~= next_step(state@, event@, *policy).1,
{
    let mut actions: Vec<ConnectionAction> = Vec::new();
    match state {
        ConnectionState::Closed { failed } => (ConnectionState::Closed { failed }, actions),
        ConnectionState::AwaitingFrame => match event {
            ConnectionEvent::Received(frame) => {
                let AgentActionFrame { transaction_id, agent_id, payload, .. } = frame;
                actions.push(ConnectionAction::Log(parsed_log(&transaction_id, &agent_id)));
                match payload {
                    PayloadType::StreamUpdate { .. } => (ConnectionState::AwaitingFrame, actions),
                    PayloadType::ToolInvocation { tool_name, arguments } => {
                        match policy.evaluate(tool_name.as_str(), arguments.as_str()) {
                            PolicyDecision::Pass => {
                                actions.push(ConnectionAction::Log(auto_approved_log(&transaction_id)));
                                actions.push(
                                    ConnectionAction::Respond(
                                        HandshakeResolutionFrame {
                                            transaction_id,
                                            status: ActionStatus::Approved,
                                            mutated_payload: None,
                                        },
                                    ),
                                );
                                (ConnectionState::AwaitingFrame, actions)
                            },
                            PolicyDecision::Escalate => {
                                actions.push(
                                    ConnectionAction::Escalate { transaction_id: transaction_id.clone() },
                                );
                                (ConnectionState::AwaitingOperator { transaction_id, tool_name }, actions)
                            },
                        }
                    },
                }
            },
            ConnectionEvent::StreamEnded => (ConnectionState::Closed { failed: false }, actions),
            ConnectionEvent::StreamFailed => (ConnectionState::Closed { failed: true }, actions),
            _ => (ConnectionState::AwaitingFrame, actions),
        },
        ConnectionState::AwaitingOperator { transaction_id, tool_name } => match event {
            ConnectionEvent::OperatorReply(reply) => {
                let status = match &reply {
                    Some(r) => r.0,
                    None => ActionStatus::Denied,
                };
                actions.push(ConnectionAction::Log(decision_log(status, &transaction_id)));
                let response = resolve_held(transaction_id, tool_name, reply);
                actions.push(ConnectionAction::Respond(response));
                (ConnectionState::AwaitingFrame, actions)
            },
            ConnectionEvent::StreamEnded => (ConnectionState::Closed { failed: false }, actions),
            ConnectionEvent::StreamFailed => (ConnectionState::Closed { failed: true }, actions),
            _ => (ConnectionState::AwaitingOperator { transaction_id, tool_name }, actions),
        },
    }
}

} // verus!

verus! {

/// The resolutions among a list of actions, in order.
pub open spec fn responses(actions: Seq<ConnectionActionView>) -> Seq<ResolutionView> {
    actions.filter(|a: ConnectionActionView| a is Respond).map_values(
        |a: ConnectionActionView| a->Respond_0,
    )
}

/// Every tool invocation is answered exactly once, with its own transaction
/// id: at once with `Approved` and no payload when the policy lets the tool
/// pass, else after the operator's reply, with the operator's status (a
/// closed reply channel counts as `Denied`). A rewritten payload goes back
/// only with `Mutated`, and it names the same tool.
pub proof fn law_tool_invocations_are_answered(
    frame: ActionFrameView,
    policy: PolicyEngine,
    reply: Option<(ActionStatus, Option<Seq<char>>)>,
)
    requires
        frame.payload is ToolInvocation,
    ensures
        ({
            let tool = frame.payload->tool_name;
            let arguments = frame.payload->arguments;
            let tx = frame.transaction_id;
            let (s1, a1) = next_step(ConnectionStateView::AwaitingFrame, ConnectionEventView::Received(frame), policy);
            if policy.decision(tool, arguments) == PolicyDecision::Pass {
                &&& s1 == ConnectionStateView::AwaitingFrame
                &&& responses(a1) == seq![approval(tx)]
                &&& responses(a1)[0].transaction_id == tx
                &&& responses(a1)[0].status == ActionStatus::Approved
                &&& responses(a1)[0].mutated_payload is None
            } else {
                let (s2, a2) = next_step(s1, ConnectionEventView::OperatorReply(reply), policy);
                let (status, arguments) = operator_answer(reply);
                &&& s1 == (ConnectionStateView::AwaitingOperator { transaction_id: tx, tool_name: tool })
                &&& responses(a1).len() == 0
                &&& a1.last() == (ConnectionActionView::Escalate { transaction_id: tx })
                &&& s2 == ConnectionStateView::AwaitingFrame
                &&& responses(a2).len() == 1
                &&& responses(a2)[0].transaction_id == tx
                &&& responses(a2)[0].status == status
                &&& (reply is None ==> responses(a2)[0].status == ActionStatus::Denied)
                &&& (responses(a2)[0].mutated_payload matches Some(p) ==> {
                    &&& status == ActionStatus::Mutated
                    &&& p == (PayloadView::ToolInvocation { tool_name: tool, arguments: arguments.unwrap() })
                })
            }
        }),
{
    reveal_with_fuel(Seq::filter, 4);
    let tool = frame.payload->tool_name;
    let tx = frame.transaction_id;
    let (s1, a1) = next_step(ConnectionStateView::AwaitingFrame, ConnectionEventView::Received(frame), policy);
    if policy.decision(tool, frame.payload->arguments) == PolicyDecision::Pass {
        assert(a1.filter(|a: ConnectionActionView| a is Respond) =~= seq![ConnectionActionView::Respond(approval(tx))]);
    } else {
        let (s2, a2) = next_step(s1, ConnectionEventView::OperatorReply(reply), policy);
        assert(a1.filter(|a: ConnectionActionView| a is Respond) =~= Seq::<ConnectionActionView>::empty());
        assert(a2.filter(|a: ConnectionActionView| a is Respond) =~= seq![a2[1]]);
    }
}

/// A stream update is logged and never answered.
pub proof fn law_stream_updates_are_not_answered(frame: ActionFrameView, policy: PolicyEngine)
    requires
        frame.payload is StreamUpdate,
    ensures
        ({
            let (s1, a1) = next_step(ConnectionStateView::AwaitingFrame, ConnectionEventView::Received(frame), policy);
            &&& s1 == ConnectionStateView::AwaitingFrame
            &&& responses(a1).len() == 0
        }),
{
    reveal_with_fuel(Seq::filter, 2);
    let (s1, a1) = next_step(ConnectionStateView::AwaitingFrame, ConnectionEventView::Received(frame), policy);
    assert(a1.filter(|a: ConnectionActionView| a is Respond) =~= Seq::<ConnectionActionView>::empty());
}

/// The operator's answer to a held invocation goes back to the agent as it
/// was given: with the same transaction id and status, a `Mutated` answer
/// with arguments carries exactly those arguments, whatever they hold, for
/// the same tool; any other answer carries no payload; and a closed answer
/// channel counts as `Denied`.
pub proof fn law_operator_answer_is_sent_back(
    tx: Seq<char>,
    tool: Seq<char>,
    reply: Option<(ActionStatus, Option<Seq<char>>)>,
    policy: PolicyEngine,
)
    ensures
        ({
            let (s, actions) = next_step(
                ConnectionStateView::AwaitingOperator { transaction_id: tx, tool_name: tool },
                ConnectionEventView::OperatorReply(reply),
                policy,
            );
            &&& s == ConnectionStateView::AwaitingFrame
            &&& actions.len() == 2
            &&& actions[1] is Respond
            &&& actions[1]->Respond_0.transaction_id == tx
            &&& match reply {
                Some((ActionStatus::Mutated, Some(a))) => {
                    &&& actions[1]->Respond_0.status == ActionStatus::Mutated
                    &&& actions[1]->Respond_0.mutated_payload == Some(
                        PayloadView::ToolInvocation { tool_name: tool, arguments: a },
                    )
                },
                Some((status, _)) => {
                    &&& actions[1]->Respond_0.status == status
                    &&& actions[1]->Respond_0.mutated_payload is None
                },
                None => {
                    &&& actions[1]->Respond_0.status == ActionStatus::Denied
                    &&& actions[1]->Respond_0.mutated_payload is None
                },
            }
        }),
{
}

} // verus!
