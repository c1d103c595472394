//! The decisions of the read loop.  The embedding program asks its line
//! editor for a line, hands what came back to `read_command`, and does what
//! `react` tells it to do.  `run` is the same loop on a script of events.

use vstd::prelude::*;
use vstd::string::*;
use vstd::utf8::encode_utf8;
use crate::grammar::{Grammar, NodeView};
use crate::lexer::LexError;
use crate::parser::{
    parse_line, spec_parse_line, CommandView, ErrorView, GrammarError, OutcomeView, ParseOutcome,
    ParsedCommand,
};

verus! {

/// What the line editor came back with.
#[derive(Clone, Debug, PartialEq, Eq)]
pub enum LineEvent {
    /// The user submitted this text.
    Line(String),
    /// The user cancelled the line.
    Interrupt,
    /// The input is at its end.
    EndOfInput,
    /// The editor could not read or write the terminal.
    IoFault(String),
}

/// What one turn of the loop read.
#[derive(Clone, Debug, PartialEq, Eq)]
pub enum ReadCommandOutput {
    /// Input parsed successfully.
    Command(ParsedCommand),
    /// Input was empty or held only whitespace.
    EmptyLine,
    /// The words do not match the command tree.
    ClapError(GrammarError),
    /// Input was not lexically valid, for example it had an open quote.
    ShlexError,
    /// The line editor failed to work with the terminal.
    ReedlineError(String),
    /// The user cancelled the line.
    CtrlC,
    /// The user closed the input.
    CtrlD,
}

/// The mathematical content of a `ReadCommandOutput`.
pub enum OutputView {
    Command(CommandView),
    EmptyLine,
    ClapError(ErrorView),
    ShlexError,
    ReedlineError(Seq<char>),
    CtrlC,
    CtrlD,
}

impl View for ReadCommandOutput {
    type V = OutputView;

    open spec fn view(&self) -> OutputView {
        match *self {
            ReadCommandOutput::Command(c) => OutputView::Command(c@),
            ReadCommandOutput::EmptyLine => OutputView::EmptyLine,
            ReadCommandOutput::ClapError(e) => OutputView::ClapError(e@),
            ReadCommandOutput::ShlexError => OutputView::ShlexError,
            ReadCommandOutput::ReedlineError(m) => OutputView::ReedlineError(m@),
            ReadCommandOutput::CtrlC => OutputView::CtrlC,
            ReadCommandOutput::CtrlD => OutputView::CtrlD,
        }
    }
}

/// The states of the loop.
#[derive(Clone, Copy, Debug, PartialEq, Eq, Structural)]
pub enum LoopState {
    /// The loop is about to ask for a line, or waits for one.
    AwaitingLine,
    /// A line with content came in and is to be parsed.
    GotLine,
    /// A command was parsed and its handler is to run.
    Dispatched,
    /// The loop has ended.
    Terminated,
}

/// What the embedding program is to do next.
#[derive(Clone, Debug, PartialEq, Eq)]
pub enum LoopAction {
    /// Run the handler on this command.
    Invoke(ParsedCommand),
    /// Tell the user that the words do not match the command tree.
    ReportGrammarError(GrammarError),
    /// Tell the user that the line could not be split into words.
    ReportLexError(LexError),
    /// Give up with this message from the line editor.
    Abort(String),
    /// Nothing.
    Nothing,
}

/// The mathematical content of a `LoopAction`.
pub enum ActionView {
    Invoke(CommandView),
    ReportGrammarError(ErrorView),
    ReportLexError(LexError),
    Abort(Seq<char>),
    Nothing,
}

impl View for LoopAction {
    type V = ActionView;

    open spec fn view(&self) -> ActionView {
        match *self {
            LoopAction::Invoke(c) => ActionView::Invoke(c@),
            LoopAction::ReportGrammarError(e) => ActionView::ReportGrammarError(e@),
            LoopAction::ReportLexError(e) => ActionView::ReportLexError(e),
            LoopAction::Abort(m) => ActionView::Abort(m@),
            LoopAction::Nothing => ActionView::Nothing,
        }
    }
}

/// The outcome of one turn: the state the loop is in afterwards, what is to
/// be done, and whether the line goes into the history.
#[derive(Clone, Debug, PartialEq, Eq)]
pub struct Transition {
    pub next: LoopState,
    pub action: LoopAction,
    pub record_history: bool,
}

/// The mathematical content of a `Transition`.
pub struct TransitionView {
    pub next: LoopState,
    pub action: ActionView,
    pub record_history: bool,
}

impl View for Transition {
    type V = TransitionView;

    open spec fn view(&self) -> TransitionView {
        TransitionView {
            next: self.next,
            action: self.action@,
            record_history: self.record_history,
        }
    }
}

/// The characters with the Unicode property White_Space.
pub open spec fn is_space(c: char) -> bool {
    let n = c as u32;
    ||| 0x09 <= n <= 0x0d
    ||| n == 0x20
    ||| n == 0x85
    ||| n == 0xa0
    ||| n == 0x1680
    ||| 0x2000 <= n <= 0x200a
    ||| n == 0x2028
    ||| n == 0x2029
    ||| n == 0x202f
    ||| n == 0x205f
    ||| n == 0x3000
}

/// Whether a text is empty or holds only whitespace.
pub open spec fn is_blank(text: Seq<char>) -> bool {
    forall|i: int| 0 <= i < text.len() ==> is_space(#[trigger] text[i])
}

/// Decides `is_blank`.
pub fn blank(line: &str) -> (res: bool)
    ensures
        res == is_blank(line@),
{
    let n = line.unicode_len();
    let mut i: usize = 0;
    while i < n
        invariant
            n == line@.len(),
            i <= n,
            forall|j: int| 0 <= j < i ==> is_space(#[trigger] line@[j]),
        decreases n - i,
    {
        let c: u32 = line.get_char(i) as u32;
        let space = (0x09 <= c && c <= 0x0d) || c == 0x20 || c == 0x85 || c == 0xa0 || c == 0x1680
            || (0x2000 <= c && c <= 0x200a) || c == 0x2028 || c == 0x2029 || c == 0x202f || c
            == 0x205f || c == 0x3000;
        if !space {
            assert(!is_space(line@[i as int]));
            return false;
        }
        i = i + 1;
    }
    true
}

/// What a turn reads from what the line editor came back with.  A blank
/// line is set aside before anything looks at it; any other line is split
/// into words and matched against the tree.
pub open spec fn spec_read_command(g: Seq<NodeView>, event: LineEvent) -> OutputView {
    match event {
        LineEvent::Interrupt => OutputView::CtrlC,
        LineEvent::EndOfInput => OutputView::CtrlD,
        LineEvent::IoFault(m) => OutputView::ReedlineError(m@),
        LineEvent::Line(text) => if is_blank(text@) {
            OutputView::EmptyLine
        } else {
            match spec_parse_line(g, encode_utf8(text@)) {
                OutcomeView::Command(c) => OutputView::Command(c),
                OutcomeView::EmptyInput => OutputView::EmptyLine,
                OutcomeView::LexError(_) => OutputView::ShlexError,
                OutcomeView::GrammarError(e) => OutputView::ClapError(e),
            }
        },
    }
}

/// Classifies what the line editor came back with.
pub fn read_command(g: &Grammar, event: LineEvent) -> (out: ReadCommandOutput)
    requires
        g.wf(),
    ensures
        out@ == spec_read_command(g@, event),
{
    match event {
        LineEvent::Interrupt => ReadCommandOutput::CtrlC,
        LineEvent::EndOfInput => ReadCommandOutput::CtrlD,
        LineEvent::IoFault(m) => ReadCommandOutput::ReedlineError(m),
        LineEvent::Line(text) => {
            if blank(text.as_str()) {
                return ReadCommandOutput::EmptyLine;
            }
            match parse_line(g, text.as_str()) {
                ParseOutcome::Command(c) => ReadCommandOutput::Command(c),
                ParseOutcome::EmptyInput => ReadCommandOutput::EmptyLine,
                ParseOutcome::LexError(_) => ReadCommandOutput::ShlexError,
                ParseOutcome::GrammarError(e) => ReadCommandOutput::ClapError(e),
            }
        },
    }
}

/// The state the loop is in once the line editor has answered: a line with
/// content is to be parsed, a blank line and an interrupt lead back to
/// waiting, the end of input and a fault end the loop.
pub open spec fn spec_receive(event: LineEvent) -> LoopState {
    match event {
        LineEvent::Line(text) => if is_blank(text@) {
            LoopState::AwaitingLine
        } else {
            LoopState::GotLine
        },
        LineEvent::Interrupt => LoopState::AwaitingLine,
        LineEvent::EndOfInput => LoopState::Terminated,
        LineEvent::IoFault(_) => LoopState::Terminated,
    }
}

/// The state after the line editor has answered.
pub fn receive(event: &LineEvent) -> (next: LoopState)
    ensures
        next == spec_receive(*event),
{
    match event {
        LineEvent::Line(text) => if blank(text.as_str()) {
            LoopState::AwaitingLine
        } else {
            LoopState::GotLine
        },
        LineEvent::Interrupt => LoopState::AwaitingLine,
        LineEvent::EndOfInput => LoopState::Terminated,
        LineEvent::IoFault(_) => LoopState::Terminated,
    }
}

/// What follows from what a turn read.  Only a parsed command reaches the
/// handler; an error is reported and the loop goes on; only the end of
/// input and a fault of the line editor end the loop.  A line goes into the
/// history where it had content.
pub open spec fn spec_react(output: OutputView) -> TransitionView {
    match output {
        OutputView::Command(c) => TransitionView {
            next: LoopState::Dispatched,
            action: ActionView::Invoke(c),
            record_history: true,
        },
        OutputView::EmptyLine => TransitionView {
            next: LoopState::AwaitingLine,
            action: ActionView::Nothing,
            record_history: false,
        },
        OutputView::ClapError(e) => TransitionView {
            next: LoopState::AwaitingLine,
            action: ActionView::ReportGrammarError(e),
            record_history: true,
        },
        OutputView::ShlexError => TransitionView {
            next: LoopState::AwaitingLine,
            action: ActionView::ReportLexError(LexError::UnterminatedQuote),
            record_history: true,
        },
        OutputView::ReedlineError(m) => TransitionView {
            next: LoopState::Terminated,
            action: ActionView::Abort(m),
            record_history: false,
        },
        OutputView::CtrlC => TransitionView {
            next: LoopState::AwaitingLine,
            action: ActionView::Nothing,
            record_history: false,
        },
        OutputView::CtrlD => TransitionView {
            next: LoopState::Terminated,
            action: ActionView::Nothing,
            record_history: false,
        },
    }
}

/// Decides what the loop does with what a turn read.
pub fn react(output: ReadCommandOutput) -> (t: Transition)
    ensures
        t@ == spec_react(output@),
{
    match output {
        ReadCommandOutput::Command(c) => Transition {
            next: LoopState::Dispatched,
            action: LoopAction::Invoke(c),
            record_history: true,
        },
        ReadCommandOutput::EmptyLine => Transition {
            next: LoopState::AwaitingLine,
            action: LoopAction::Nothing,
            record_history: false,
        },
        ReadCommandOutput::ClapError(e) => Transition {
            next: LoopState::AwaitingLine,
            action: LoopAction::ReportGrammarError(e),
            record_history: true,
        },
        ReadCommandOutput::ShlexError => Transition {
            next: LoopState::AwaitingLine,
            action: LoopAction::ReportLexError(LexError::UnterminatedQuote),
            record_history: true,
        },
        ReadCommandOutput::ReedlineError(m) => Transition {
            next: LoopState::Terminated,
            action: LoopAction::Abort(m),
            record_history: false,
        },
        ReadCommandOutput::CtrlC => Transition {
            next: LoopState::AwaitingLine,
            action: LoopAction::Nothing,
            record_history: false,
        },
        ReadCommandOutput::CtrlD => Transition {
            next: LoopState::Terminated,
            action: LoopAction::Nothing,
            record_history: false,
        },
    }
}

/// The state after the handler has returned, and after anything else that
/// does not end the loop.
pub fn resume(state: LoopState) -> (next: LoopState)
    ensures
        next == if state == LoopState::Terminated {
            LoopState::Terminated
        } else {
            LoopState::AwaitingLine
        },
{
    match state {
        LoopState::Terminated => LoopState::Terminated,
        _ => LoopState::AwaitingLine,
    }
}

/// What a run of the loop did: the state it ended in, every action it
/// asked for other than `Nothing`, in order, and the lines that went into
/// the history.
#[derive(Clone, Debug, PartialEq, Eq)]
pub struct Trace {
    pub state: LoopState,
    pub actions: Vec<LoopAction>,
    pub history: Vec<String>,
}

/// The mathematical content of a `Trace`.
pub struct TraceView {
    pub state: LoopState,
    pub actions: Seq<ActionView>,
    pub history: Seq<Seq<char>>,
}

/// The contents of a list of actions.
pub open spec fn action_views(actions: Seq<LoopAction>) -> Seq<ActionView> {
    Seq::new(actions.len(), |i: int| actions[i]@)
}

/// The texts of a list of lines.
pub open spec fn line_texts(lines: Seq<String>) -> Seq<Seq<char>> {
    Seq::new(lines.len(), |i: int| lines[i]@)
}

impl View for Trace {
    type V = TraceView;

    open spec fn view(&self) -> TraceView {
        TraceView {
            state: self.state,
            actions: action_views(self.actions@),
            history: line_texts(self.history@),
        }
    }
}

/// The text that came with an event; empty where it brought no line.
pub open spec fn line_of(event: LineEvent) -> Seq<char> {
    match event {
        LineEvent::Line(text) => text@,
        _ => Seq::empty(),
    }
}

/// A trace after one more turn on `event`.  Once the handler has run the
/// loop waits for the next line.
pub open spec fn spec_turn(g: Seq<NodeView>, trace: TraceView, event: LineEvent) -> TraceView {
    let t = spec_react(spec_read_command(g, event));
    TraceView {
        state: if t.next == LoopState::Terminated {
            LoopState::Terminated
        } else {
            LoopState::AwaitingLine
        },
        actions: if t.action is Nothing {
            trace.actions
        } else {
            trace.actions.push(t.action)
        },
        history: if t.record_history {
            trace.history.push(line_of(event))
        } else {
            trace.history
        },
    }
}

/// The trace of the loop run on the events from `i` on, one turn per event,
/// until the events are used up or the loop has ended.
pub open spec fn spec_run(g: Seq<NodeView>, events: Seq<LineEvent>, i: int, trace: TraceView) -> TraceView
    decreases events.len() - i,
{
    if i < 0 || i >= events.len() || trace.state == LoopState::Terminated {
        trace
    } else {
        spec_run(g, events, i + 1, spec_turn(g, trace, events[i]))
    }
}

/// The trace that a run starts with.
pub open spec fn fresh_trace() -> TraceView {
    TraceView { state: LoopState::AwaitingLine, actions: Seq::empty(), history: Seq::empty() }
}

/// Runs the loop on a script of events in place of a line editor.
pub fn run(g: &Grammar, events: &Vec<LineEvent>) -> (trace: Trace)
    requires
        g.wf(),
    ensures
        trace@ == spec_run(g@, events@, 0, fresh_trace()),
{
    let mut trace = Trace {
        state: LoopState::AwaitingLine,
        actions: Vec::new(),
        history: Vec::new(),
    };
    assert(trace@.actions =~= Seq::empty() && trace@.history =~= Seq::empty());
    let mut i: usize = 0;
    while i < events.len() && trace.state != LoopState::Terminated
        invariant
            g.wf(),
            i <= events.len(),
            spec_run(g@, events@, 0, fresh_trace()) == spec_run(g@, events@, i as int, trace@),
        decreases events.len() - i,
    {
        let ghost before = trace@;
        let (event, line) = match &events[i] {
            LineEvent::Line(text) => (LineEvent::Line(text.clone()), text.clone()),
            LineEvent::Interrupt => (LineEvent::Interrupt, String::new()),
            LineEvent::EndOfInput => (LineEvent::EndOfInput, String::new()),
            LineEvent::IoFault(m) => (LineEvent::IoFault(m.clone()), String::new()),
        };
        assert(event == events@[i as int]);
        assert(line@ == line_of(event));
        let t = react(read_command(g, event));
        trace.state = resume(t.next);
        match t.action {
            LoopAction::Nothing => {},
            action => {
                trace.actions.push(action);
            },
        }
        if t.record_history {
            trace.history.push(line);
        }
        assert(trace@.actions =~= spec_turn(g@, before, events@[i as int]).actions);
        assert(trace@.history =~= spec_turn(g@, before, events@[i as int]).history);
        i = i + 1;
    }
    trace
}

/// A run whose first event is the end of input ends at once: no handler
/// runs, nothing is reported, nothing goes into the history, and there is
/// no fault.
pub proof fn run_ends_at_end_of_input(g: Seq<NodeView>, events: Seq<LineEvent>)
    requires
        events.len() > 0,
        events[0] is EndOfInput,
    ensures
        spec_run(g, events, 0, fresh_trace()) == (TraceView {
            state: LoopState::Terminated,
            actions: Seq::empty(),
            history: Seq::empty(),
        }),
{
    reveal_with_fuel(spec_run, 3);
}

/// A run goes by the events ahead alone: where two scripts go on alike,
/// the runs from there on are the same.
pub proof fn run_goes_by_the_events_ahead(
    g: Seq<NodeView>,
    a: Seq<LineEvent>,
    i: int,
    b: Seq<LineEvent>,
    j: int,
    trace: TraceView,
)
    requires
        0 <= i <= a.len(),
        0 <= j <= b.len(),
        a.subrange(i, a.len() as int) == b.subrange(j, b.len() as int),
    ensures
        spec_run(g, a, i, trace) == spec_run(g, b, j, trace),
    decreases a.len() - i,
{
    let ahead_a = a.subrange(i, a.len() as int);
    let ahead_b = b.subrange(j, b.len() as int);
    assert(ahead_a.len() == ahead_b.len());
    if i < a.len() && trace.state != LoopState::Terminated {
        assert(a[i] == ahead_a[0]);
        assert(b[j] == ahead_b[0]);
        assert(a.subrange(i + 1, a.len() as int) =~= ahead_a.subrange(1, ahead_a.len() as int));
        assert(b.subrange(j + 1, b.len() as int) =~= ahead_b.subrange(1, ahead_b.len() as int));
        run_goes_by_the_events_ahead(g, a, i + 1, b, j + 1, spec_turn(g, trace, a[i]));
    }
}

/// A blank line leaves no mark on a run: with it or without it at the head
/// of the script, the same handlers run, the same is reported, and the same
/// lines go into the history.
pub proof fn blank_line_leaves_no_mark(g: Seq<NodeView>, text: String, rest: Seq<LineEvent>)
    requires
        is_blank(text@),
    ensures
        spec_run(g, seq![LineEvent::Line(text)] + rest, 0, fresh_trace()) == spec_run(
            g,
            rest,
            0,
            fresh_trace(),
        ),
{
    let all = seq![LineEvent::Line(text)] + rest;
    assert(all[0] == LineEvent::Line(text));
    assert(spec_turn(g, fresh_trace(), all[0]) == fresh_trace());
    assert(all.subrange(1, all.len() as int) =~= rest.subrange(0, rest.len() as int));
    run_goes_by_the_events_ahead(g, all, 1, rest, 0, fresh_trace());
}

/// A blank line is discarded: the handler does not run, nothing is
/// reported, nothing goes into the history, and the loop waits for the next
/// line.
pub proof fn blank_line_is_discarded(g: Seq<NodeView>, text: String)
    requires
        is_blank(text@),
    ensures
        spec_react(spec_read_command(g, LineEvent::Line(text))) == (TransitionView {
            next: LoopState::AwaitingLine,
            action: ActionView::Nothing,
            record_history: false,
        }),
        spec_receive(LineEvent::Line(text)) == LoopState::AwaitingLine,
{
}

/// The handler runs only on a line with content whose words match the
/// tree, and then on exactly what the parser made of them.
pub proof fn handler_runs_only_on_parsed_command(g: Seq<NodeView>, event: LineEvent)
    ensures
        spec_react(spec_read_command(g, event)).action is Invoke <==> (event matches LineEvent::Line(
            text,
        ) && !is_blank(text@) && spec_parse_line(g, encode_utf8(text@)) is Command),
        spec_react(spec_read_command(g, event)).next == LoopState::Dispatched <==> spec_react(
            spec_read_command(g, event),
        ).action is Invoke,
{
}

/// The end of input ends the loop at once: no handler runs, nothing is
/// reported, and there is no fault.
pub proof fn end_of_input_terminates(g: Seq<NodeView>)
    ensures
        spec_react(spec_read_command(g, LineEvent::EndOfInput)) == (TransitionView {
            next: LoopState::Terminated,
            action: ActionView::Nothing,
            record_history: false,
        }),
{
}

/// Only the end of input and a fault of the line editor end the loop; a
/// line that cannot be split or matched never does.
pub proof fn errors_never_end_the_loop(g: Seq<NodeView>, event: LineEvent)
    ensures
        spec_react(spec_read_command(g, event)).next == LoopState::Terminated <==> (event
            is EndOfInput || event is IoFault),
{
}

} // verus!
