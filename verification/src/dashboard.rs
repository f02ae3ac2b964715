//! The operator dashboard: which transaction is on screen, the queue of
//! held transactions behind it, the telemetry log, and what each key does.
//!
//! Every held transaction carries a ticket that names the channel on which
//! its agent waits for the answer; the caller keeps the channels.

use std::collections::VecDeque;
use vstd::prelude::*;
use vstd::string::*;
use crate::models::ActionStatus;
use crate::text::{decimal, decimal_text, join_lines, joined_lines, texts};

verus! {

/// The most lines the telemetry log keeps.
pub const LOG_CAPACITY: usize = 50;

/// What the dashboard shows.
pub enum InteractionMode {
    /// No transaction is held: telemetry flows.
    Streaming,
    /// A held transaction awaits `y`, `n`, `m` or F8.
    Blocked(String, u64),
    /// The operator edits the arguments of a held transaction.
    Mutating(String, u64),
}

/// What the connections report to the dashboard.
pub enum UiEvent {
    /// A transaction is held; its answer goes to the channel of the ticket.
    IncomingBlock(String, u64),
    /// A line for the telemetry log.
    NewLog(String),
}

/// The dashboard's state.
pub struct AppState {
    pub mode: InteractionMode,
    pub logs: VecDeque<String>,
    pub pending_blocks: VecDeque<(String, u64)>,
}

/// A key as the dashboard tells keys apart.
#[derive(Debug, Clone, Copy, PartialEq, Eq, Structural)]
pub enum KeyCode {
    Char(char),
    F(u8),
    Esc,
    Other,
}

/// One terminal input: a key with whether Control was held, or anything
/// else (mouse, resize, focus, paste).
#[derive(Debug, Clone, Copy, PartialEq, Eq, Structural)]
pub enum TerminalInput {
    Key { code: KeyCode, control: bool },
    Other,
}

/// What the caller must do after an input.
pub enum InputOutcome {
    Nothing,
    /// Leave the dashboard.
    Quit,
    /// Answer the held transaction of `ticket`.
    Reply { ticket: u64, status: ActionStatus, mutated: Option<String> },
    /// Export the transaction to the fuzz pool, then answer it `Denied`.
    ExportAndDeny { transaction_id: String, ticket: u64 },
    /// Open the argument editor, filled with `initial_text`.
    OpenEditor { initial_text: String },
    /// Hand the input to the argument editor.
    ForwardToEditor,
}

/// Colour of the dashboard's frame.
#[derive(Debug, Clone, Copy, PartialEq, Eq, Structural)]
pub enum ModeColor {
    Green,
    Red,
    Yellow,
}

pub enum ModeView {
    Streaming,
    Blocked(Seq<char>, u64),
    Mutating(Seq<char>, u64),
}

pub struct DashboardView {
    pub mode: ModeView,
    pub logs: Seq<Seq<char>>,
    pub pending: Seq<(Seq<char>, u64)>,
}

pub enum UiEventView {
    IncomingBlock(Seq<char>, u64),
    NewLog(Seq<char>),
}

pub enum OutcomeView {
    Nothing,
    Quit,
    Reply { ticket: u64, status: ActionStatus, mutated: Option<Seq<char>> },
    ExportAndDeny { transaction_id: Seq<char>, ticket: u64 },
    OpenEditor { initial_text: Seq<char> },
    ForwardToEditor,
}

pub open spec fn pending_views(p: Seq<(String, u64)>) -> Seq<(Seq<char>, u64)> {
    p.map_values(|e: (String, u64)| (e.0@, e.1))
}

impl View for InteractionMode {
    type V = ModeView;

    open spec fn view(&self) -> ModeView {
        match self {
            InteractionMode::Streaming => ModeView::Streaming,
            InteractionMode::Blocked(tx, t) => ModeView::Blocked(tx@, *t),
            InteractionMode::Mutating(tx, t) => ModeView::Mutating(tx@, *t),
        }
    }
}

impl View for AppState {
    type V = DashboardView;

    open spec fn view(&self) -> DashboardView {
        DashboardView {
            mode: self.mode@,
            logs: texts(self.logs@),
            pending: pending_views(self.pending_blocks@),
        }
    }
}

impl View for UiEvent {
    type V = UiEventView;

    open spec fn view(&self) -> UiEventView {
        match self {
            UiEvent::IncomingBlock(tx, t) => UiEventView::IncomingBlock(tx@, *t),
            UiEvent::NewLog(s) => UiEventView::NewLog(s@),
        }
    }
}

impl View for InputOutcome {
    type V = OutcomeView;

    open spec fn view(&self) -> OutcomeView {
        match self {
            InputOutcome::Nothing => OutcomeView::Nothing,
            InputOutcome::Quit => OutcomeView::Quit,
            InputOutcome::Reply { ticket, status, mutated } => OutcomeView::Reply {
                ticket: *ticket,
                status: *status,
                mutated: match mutated {
                    Some(s) => Some(s@),
                    None => None,
                },
            },
            InputOutcome::ExportAndDeny { transaction_id, ticket } => OutcomeView::ExportAndDeny {
                transaction_id: transaction_id@,
                ticket: *ticket,
            },
            InputOutcome::OpenEditor { initial_text } => OutcomeView::OpenEditor {
                initial_text: initial_text@,
            },
            InputOutcome::ForwardToEditor => OutcomeView::ForwardToEditor,
        }
    }
}

/// The states the operations reach from `new`: while streaming no
/// transaction waits, and the log holds at most `LOG_CAPACITY` lines.
pub open spec fn well_formed(v: DashboardView) -> bool {
    &&& v.mode is Streaming ==> v.pending.len() == 0
    &&& v.logs.len() <= LOG_CAPACITY
}

/// The log after appending `line`: the oldest line goes once the log is full.
pub open spec fn logged(logs: Seq<Seq<char>>, line: Seq<char>) -> Seq<Seq<char>> {
    if logs.len() >= LOG_CAPACITY {
        logs.drop_first().push(line)
    } else {
        logs.push(line)
    }
}

/// The next held transaction comes on screen, or streaming resumes.
pub open spec fn advanced(v: DashboardView) -> DashboardView {
    if v.pending.len() == 0 {
        DashboardView { mode: ModeView::Streaming, ..v }
    } else {
        DashboardView {
            mode: ModeView::Blocked(v.pending[0].0, v.pending[0].1),
            pending: v.pending.drop_first(),
            ..v
        }
    }
}

/// The dashboard after a report from a connection.
pub open spec fn after_event(v: DashboardView, e: UiEventView) -> DashboardView {
    match e {
        UiEventView::IncomingBlock(tx, t) => {
            if v.mode is Streaming {
                DashboardView { mode: ModeView::Blocked(tx, t), ..v }
            } else {
                DashboardView { pending: v.pending.push((tx, t)), ..v }
            }
        },
        UiEventView::NewLog(line) => DashboardView { logs: logged(v.logs, line), ..v },
    }
}

/// The text the argument editor opens with.
pub open spec fn editor_template() -> Seq<char> {
    "{\"query\": \"EDIT ME\"}"@
}

pub open spec fn is_key(input: TerminalInput, code: KeyCode) -> bool {
    input matches TerminalInput::Key { code: c, .. } && c == code
}

/// The dashboard and the outcome after one terminal input; `editor` holds
/// the lines of the argument editor.
pub open spec fn after_input(
    v: DashboardView,
    input: TerminalInput,
    editor: Seq<Seq<char>>,
) -> (DashboardView, OutcomeView) {
    if input == (TerminalInput::Key { code: KeyCode::Char('c'), control: true }) {
        (v, OutcomeView::Quit)
    } else {
        match v.mode {
            ModeView::Blocked(tx, t) => {
                if is_key(input, KeyCode::Char('y')) {
                    (advanced(v), OutcomeView::Reply { ticket: t, status: ActionStatus::Approved, mutated: None })
                } else if is_key(input, KeyCode::Char('n')) {
                    (advanced(v), OutcomeView::Reply { ticket: t, status: ActionStatus::Denied, mutated: None })
                } else if is_key(input, KeyCode::Char('m')) {
                    (
                        DashboardView { mode: ModeView::Mutating(tx, t), ..v },
                        OutcomeView::OpenEditor { initial_text: editor_template() },
                    )
                } else if is_key(input, KeyCode::F(8)) {
                    (advanced(v), OutcomeView::ExportAndDeny { transaction_id: tx, ticket: t })
                } else {
                    (v, OutcomeView::Nothing)
                }
            },
            ModeView::Mutating(_tx, t) => {
                if is_key(input, KeyCode::F(9)) {
                    (
                        advanced(v),
                        OutcomeView::Reply {
                            ticket: t,
                            status: ActionStatus::Mutated,
                            mutated: Some(joined_lines(editor)),
                        },
                    )
                } else if is_key(input, KeyCode::Esc) {
                    (advanced(v), OutcomeView::Reply { ticket: t, status: ActionStatus::Denied, mutated: None })
                } else {
                    (v, OutcomeView::ForwardToEditor)
                }
            },
            ModeView::Streaming => {
                if is_key(input, KeyCode::Char('q')) {
                    (v, OutcomeView::Quit)
                } else {
                    (v, OutcomeView::Nothing)
                }
            },
        }
    }
}

/// `" (<n> Pending)"`, or nothing when no transaction waits.
pub open spec fn pending_suffix_text(n: nat) -> Seq<char> {
    if n == 0 {
        Seq::empty()
    } else {
        " ("@ + decimal_text(n) + " Pending)"@
    }
}

/// The title of the dashboard's frame.
pub open spec fn title_text(v: DashboardView) -> Seq<char> {
    match v.mode {
        ModeView::Streaming => " SLEIPNIR: STREAMING "@,
        ModeView::Blocked(..) => " SLEIPNIR: BLOCKED"@ + pending_suffix_text(v.pending.len()) + " "@,
        ModeView::Mutating(..) => " SLEIPNIR: MUTATING"@ + pending_suffix_text(v.pending.len())
            + " (F9 to Submit, ESC to Cancel) "@,
    }
}

pub open spec fn color_of(m: ModeView) -> ModeColor {
    match m {
        ModeView::Streaming => ModeColor::Green,
        ModeView::Blocked(..) => ModeColor::Red,
        ModeView::Mutating(..) => ModeColor::Yellow,
    }
}

proof fn lemma_texts_push(s: Seq<String>, x: String)
    ensures
        texts(s.push(x)) =~= texts(s).push(x@),
{
}

proof fn lemma_texts_drop_first(s: Seq<String>)
    requires
        s.len() > 0,
    ensures
        texts(s.subrange(1, s.len() as int)) =~= texts(s).drop_first(),
{
}

proof fn lemma_pending_push(s: Seq<(String, u64)>, x: (String, u64))
    ensures
        pending_views(s.push(x)) =~= pending_views(s).push((x.0@, x.1)),
{
}

proof fn lemma_pending_drop_first(s: Seq<(String, u64)>)
    requires
        s.len() > 0,
    ensures
        pending_views(s.subrange(1, s.len() as int)) =~= pending_views(s).drop_first(),
{
}

impl AppState {
    /// A dashboard that streams, with an empty log and no held transaction.
    pub fn new() -> (s: Self)
        ensures
            s@.mode is Streaming,
            s@.logs.len() == 0,
            s@.pending.len() == 0,
    {
        let s = AppState {
            mode: InteractionMode::Streaming,
            logs: VecDeque::with_capacity(LOG_CAPACITY),
            pending_blocks: VecDeque::new(),
        };
        assert(s@.logs =~= Seq::empty());
        assert(s@.pending =~= Seq::empty());
        s
    }

    /// Appends a line to the telemetry log, dropping the oldest line when
    /// the log already holds `LOG_CAPACITY` lines.
    pub fn push_log(&mut self, log: String)
        ensures
            final(self)@ == (DashboardView { logs: logged(old(self)@.logs, log@), ..old(self)@ }),
    {
        let ghost before = self.logs@;
        if self.logs.len() >= LOG_CAPACITY {
            self.logs.pop_front();
            proof { lemma_texts_drop_first(before); }
        }
        let ghost middle = self.logs@;
        self.logs.push_back(log);
        proof {
            lemma_texts_push(middle, log);
            assert(self@.logs =~= logged(texts(before), log@));
        }
    }

    /// Puts the next held transaction on screen, or resumes streaming.
    pub fn advance_queue(&mut self)
        ensures
            final(self)@ == advanced(old(self)@),
    {
        let ghost before = self.pending_blocks@;
        match self.pending_blocks.pop_front() {
            Some((tx, ticket)) => {
                proof { lemma_pending_drop_first(before); }
                self.mode = InteractionMode::Blocked(tx, ticket);
                assert(self@.pending =~= advanced(old(self)@).pending);
            },
            None => {
                self.mode = InteractionMode::Streaming;
            },
        }
    }

    /// Takes in a report from a connection: a held transaction goes on
    /// screen when none is, and queues otherwise; a log line is logged.
    pub fn apply_event(&mut self, event: UiEvent)
        ensures
            final(self)@ == after_event(old(self)@, event@),
    {
        match event {
            UiEvent::IncomingBlock(tx, ticket) => {
                if let InteractionMode::Streaming = self.mode {
                    self.mode = InteractionMode::Blocked(tx, ticket);
                } else {
                    let ghost before = self.pending_blocks@;
                    let ghost entry = (tx, ticket);
                    self.pending_blocks.push_back((tx, ticket));
                    proof {
                        lemma_pending_push(before, entry);
                        assert(self@.pending =~= old(self)@.pending.push((entry.0@, entry.1)));
                    }
                }
            },
            UiEvent::NewLog(line) => {
                self.push_log(line);
            },
        }
    }

    /// Acts on one terminal input. Control-C quits in every mode.
    /// A held transaction is approved with `y`, denied with `n`, exported
    /// and denied with F8, or opened for editing with `m`; while editing,
    /// F9 answers `Mutated` with the editor's lines joined by newlines, Esc
    /// answers `Denied`, and any other input goes to the editor. When
    /// streaming, `q` quits.
    pub fn handle_input(&mut self, input: TerminalInput, editor_lines: &Vec<String>) -> (res: InputOutcome)
        ensures
            final(self)@ == after_input(old(self)@, input, texts(editor_lines@)).0,
            res@ == after_input(old(self)@, input, texts(editor_lines@)).1,
    {
        if input == (TerminalInput::Key { code: KeyCode::Char('c'), control: true }) {
            return InputOutcome::Quit;
        }
        let code = match input {
            TerminalInput::Key { code, .. } => code,
            TerminalInput::Other => KeyCode::Other,
        };
        let is_key = match input {
            TerminalInput::Key { .. } => true,
            TerminalInput::Other => false,
        };
        match &self.mode {
            InteractionMode::Blocked(tx, ticket) => {
                let ticket = *ticket;
                if is_key && code == KeyCode::Char('y') {
                    self.advance_queue();
                    InputOutcome::Reply { ticket, status: ActionStatus::Approved, mutated: None }
                } else if is_key && code == KeyCode::Char('n') {
                    self.advance_queue();
                    InputOutcome::Reply { ticket, status: ActionStatus::Denied, mutated: None }
                } else if is_key && code == KeyCode::Char('m') {
                    let tx = tx.clone();
                    self.mode = InteractionMode::Mutating(tx, ticket);
                    InputOutcome::OpenEditor { initial_text: String::from_str("{\"query\": \"EDIT ME\"}") }
                } else if is_key && code == KeyCode::F(8) {
                    let transaction_id = tx.clone();
                    self.advance_queue();
                    InputOutcome::ExportAndDeny { transaction_id, ticket }
                } else {
                    InputOutcome::Nothing
                }
            },
            InteractionMode::Mutating(_, ticket) => {
                let ticket = *ticket;
                if is_key && code == KeyCode::F(9) {
                    let text = join_lines(editor_lines);
                    self.advance_queue();
                    InputOutcome::Reply { ticket, status: ActionStatus::Mutated, mutated: Some(text) }
                } else if is_key && code == KeyCode::Esc {
                    self.advance_queue();
                    InputOutcome::Reply { ticket, status: ActionStatus::Denied, mutated: None }
                } else {
                    InputOutcome::ForwardToEditor
                }
            },
            InteractionMode::Streaming => {
                if is_key && code == KeyCode::Char('q') {
                    InputOutcome::Quit
                } else {
                    InputOutcome::Nothing
                }
            },
        }
    }

    /// The title of the dashboard's frame, with the number of transactions
    /// that wait behind the one on screen.
    pub fn title(&self) -> (s: String)
        ensures
            s@ == title_text(self@),
    {
        match &self.mode {
            InteractionMode::Streaming => String::from_str(" SLEIPNIR: STREAMING "),
            InteractionMode::Blocked(..) => {
                let mut s = String::from_str(" SLEIPNIR: BLOCKED");
                let suffix = pending_suffix(self.pending_blocks.len());
                s.append(suffix.as_str());
                s.append(" ");
                s
            },
            InteractionMode::Mutating(..) => {
                let mut s = String::from_str(" SLEIPNIR: MUTATING");
                let suffix = pending_suffix(self.pending_blocks.len());
                s.append(suffix.as_str());
                s.append(" (F9 to Submit, ESC to Cancel) ");
                s
            },
        }
    }

    /// Green while streaming, red while a transaction is held, yellow while
    /// its arguments are edited.
    pub fn color(&self) -> (c: ModeColor)
        ensures
            c == color_of(self@.mode),
    {
        match &self.mode {
            InteractionMode::Streaming => ModeColor::Green,
            InteractionMode::Blocked(..) => ModeColor::Red,
            InteractionMode::Mutating(..) => ModeColor::Yellow,
        }
    }
}

/// `" (<n> Pending)"`, or the empty string when `n` is zero.
pub fn pending_suffix(n: usize) -> (s: String)
    ensures
        s@ == pending_suffix_text(n as nat),
{
    if n == 0 {
        String::new()
    } else {
        let mut s = String::from_str(" (");
        let digits = decimal(n as u64);
        s.append(digits.as_str());
        s.append(" Pending)");
        s
    }
}

} // verus!

verus! {

/// The tickets of the held transactions, the one on screen first, then the
/// queue in arrival order.
pub open spec fn held_tickets(v: DashboardView) -> Seq<u64> {
    let queued = v.pending.map_values(|e: (Seq<char>, u64)| e.1);
    match v.mode {
        ModeView::Streaming => queued,
        ModeView::Blocked(_, t) => seq![t] + queued,
        ModeView::Mutating(_, t) => seq![t] + queued,
    }
}

/// The ticket that an outcome answers, if it answers one.
pub open spec fn answered_ticket(out: OutcomeView) -> Option<u64> {
    match out {
        OutcomeView::Reply { ticket, .. } => Some(ticket),
        OutcomeView::ExportAndDeny { ticket, .. } => Some(ticket),
        _ => None,
    }
}

/// Every operation keeps the dashboard well formed: the log never holds
/// more than `LOG_CAPACITY` lines, and streaming never hides a held
/// transaction.
pub proof fn law_operations_keep_well_formed(
    v: DashboardView,
    e: UiEventView,
    input: TerminalInput,
    editor: Seq<Seq<char>>,
)
    requires
        well_formed(v),
    ensures
        well_formed(after_event(v, e)),
        well_formed(after_input(v, input, editor).0),
        well_formed(advanced(v)),
{
}

/// The log keeps the latest lines: after appending, it holds the last
/// `min(n + 1, LOG_CAPACITY)` lines of the old log followed by the new one.
pub proof fn law_log_keeps_latest(logs: Seq<Seq<char>>, line: Seq<char>)
    requires
        logs.len() <= LOG_CAPACITY,
    ensures
        ({
            let all = logs.push(line);
            let kept: int = if all.len() > LOG_CAPACITY { LOG_CAPACITY as int } else { all.len() as int };
            logged(logs, line) =~= all.subrange(all.len() - kept, all.len() as int)
        }),
        logged(logs, line).len() <= LOG_CAPACITY,
        logged(logs, line).last() == line,
{
}

/// A held transaction joins the end of the line: its ticket is answered
/// after every ticket held before it. A log line changes no ticket.
pub proof fn law_held_transactions_queue(v: DashboardView, tx: Seq<char>, t: u64, line: Seq<char>)
    requires
        well_formed(v),
    ensures
        held_tickets(after_event(v, UiEventView::IncomingBlock(tx, t))) =~= held_tickets(v).push(t),
        held_tickets(after_event(v, UiEventView::NewLog(line))) =~= held_tickets(v),
{
    let queued = v.pending.map_values(|e: (Seq<char>, u64)| e.1);
    assert(v.pending.push((tx, t)).map_values(|e: (Seq<char>, u64)| e.1) =~= queued.push(t));
}

/// Each held transaction is answered exactly once, oldest first: an input
/// that answers a ticket answers the first held one and removes it, keeping
/// the others in order; any other input removes no ticket.
pub proof fn law_answers_go_to_the_oldest(v: DashboardView, input: TerminalInput, editor: Seq<Seq<char>>)
    requires
        well_formed(v),
    ensures
        ({
            let (v2, out) = after_input(v, input, editor);
            match answered_ticket(out) {
                Some(t) => {
                    &&& held_tickets(v).len() > 0
                    &&& t == held_tickets(v)[0]
                    &&& held_tickets(v2) =~= held_tickets(v).drop_first()
                },
                None => held_tickets(v2) =~= held_tickets(v),
            }
        }),
{
    let queued = v.pending.map_values(|e: (Seq<char>, u64)| e.1);
    if v.pending.len() > 0 {
        assert(v.pending.drop_first().map_values(|e: (Seq<char>, u64)| e.1) =~= queued.drop_first());
        assert(seq![queued[0]] + queued.drop_first() =~= queued);
    }
    match v.mode {
        ModeView::Blocked(_, t) => {
            assert((seq![t] + queued).drop_first() =~= queued);
        },
        ModeView::Mutating(_, t) => {
            assert((seq![t] + queued).drop_first() =~= queued);
        },
        ModeView::Streaming => {},
    }
}

/// Control-C quits from every mode and leaves the dashboard as it was;
/// no other input quits except `q` while streaming.
pub proof fn law_control_c_quits(v: DashboardView, input: TerminalInput, editor: Seq<Seq<char>>)
    ensures
        input == (TerminalInput::Key { code: KeyCode::Char('c'), control: true }) ==> after_input(v, input, editor)
            == (v, OutcomeView::Quit),
        after_input(v, input, editor).1 is Quit ==> {
            ||| input == (TerminalInput::Key { code: KeyCode::Char('c'), control: true })
            ||| (v.mode is Streaming && is_key(input, KeyCode::Char('q')))
        },
{
}

/// The dashboard after the transaction on screen is answered: the oldest
/// queued transaction comes on screen, or streaming resumes.
pub open spec fn next_on_screen(v: DashboardView, w: DashboardView) -> bool {
    &&& w.logs == v.logs
    &&& if v.pending.len() == 0 {
        w.mode == ModeView::Streaming && w.pending.len() == 0
    } else {
        w.mode == ModeView::Blocked(v.pending[0].0, v.pending[0].1) && w.pending =~= v.pending.subrange(
            1,
            v.pending.len() as int,
        )
    }
}

/// The keys on a held transaction act on the transaction on screen, whatever
/// waits behind it: `y` approves it, `n` denies it, F8 exports and denies
/// it, each bringing the next transaction on screen; `m` opens it for
/// editing and keeps the queue.
pub proof fn law_keys_act_on_the_transaction_on_screen(
    v: DashboardView,
    tx: Seq<char>,
    t: u64,
    control: bool,
    editor: Seq<Seq<char>>,
)
    requires
        v.mode == ModeView::Blocked(tx, t),
    ensures
        ({
            let (w, out) = after_input(v, TerminalInput::Key { code: KeyCode::Char('y'), control }, editor);
            out == (OutcomeView::Reply { ticket: t, status: ActionStatus::Approved, mutated: None })
                && next_on_screen(v, w)
        }),
        ({
            let (w, out) = after_input(v, TerminalInput::Key { code: KeyCode::Char('n'), control }, editor);
            out == (OutcomeView::Reply { ticket: t, status: ActionStatus::Denied, mutated: None })
                && next_on_screen(v, w)
        }),
        ({
            let (w, out) = after_input(v, TerminalInput::Key { code: KeyCode::F(8), control }, editor);
            out == (OutcomeView::ExportAndDeny { transaction_id: tx, ticket: t }) && next_on_screen(v, w)
        }),
        ({
            let (w, out) = after_input(v, TerminalInput::Key { code: KeyCode::Char('m'), control }, editor);
            &&& out is OpenEditor
            &&& w.mode == ModeView::Mutating(tx, t)
            &&& w.pending == v.pending
            &&& w.logs == v.logs
        }),
{
}

/// While a transaction is edited, F9 answers it `Mutated` with the editor's
/// lines joined by newlines (one line comes back as it is), and Esc answers
/// it `Denied`; both bring the next transaction on screen.
pub proof fn law_editing_keys(v: DashboardView, tx: Seq<char>, t: u64, control: bool, editor: Seq<Seq<char>>)
    requires
        v.mode == ModeView::Mutating(tx, t),
    ensures
        ({
            let (w, out) = after_input(v, TerminalInput::Key { code: KeyCode::F(9), control }, editor);
            &&& out matches OutcomeView::Reply { ticket, status, mutated: Some(text) }
            &&& ticket == t && status == ActionStatus::Mutated
            &&& editor.len() == 1 ==> text == editor[0]
            &&& editor.len() == 0 ==> text.len() == 0
            &&& next_on_screen(v, w)
        }),
        ({
            let (w, out) = after_input(v, TerminalInput::Key { code: KeyCode::Esc, control }, editor);
            out == (OutcomeView::Reply { ticket: t, status: ActionStatus::Denied, mutated: None })
                && next_on_screen(v, w)
        }),
{
}

/// A log line is appended in every mode: it becomes the last line, the log
/// keeps the latest lines before it up to `LOG_CAPACITY` in all, and nothing
/// else changes.
pub proof fn law_log_lines_always_logged(v: DashboardView, line: Seq<char>)
    requires
        v.logs.len() <= LOG_CAPACITY,
    ensures
        ({
            let w = after_event(v, UiEventView::NewLog(line));
            let kept: int = if v.logs.len() < LOG_CAPACITY { (v.logs.len() + 1) as int } else { LOG_CAPACITY as int };
            &&& w.logs.len() == kept
            &&& w.logs[kept - 1] == line
            &&& w.logs.subrange(0, kept - 1) =~= v.logs.subrange(v.logs.len() - (kept - 1), v.logs.len() as int)
            &&& w.mode == v.mode
            &&& w.pending == v.pending
        }),
{
}

} // verus!
