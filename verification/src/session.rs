//! The decisions of the interactive loop: what to do with each event of the
//! running machine and with each line that the user enters, and the partial
//! output line that is folded into the next prompt.

use vstd::prelude::*;
use crate::decorate::{decorate_list, decorated};
use crate::error::Error;
use crate::listing::Listing;
use crate::text::{concatenated, string_views};
use std::ops::Range;

verus! {

/// What the running machine reports.
pub enum Event {
    /// The program stopped: the user enters a command.
    Stopped,
    /// The program asks for input with this prompt, in upper case where the
    /// flag holds.
    Input(String, bool),
    /// These errors happened.
    Errors(Vec<Error>),
    /// The program is still running.
    Running,
    /// The program printed this text.
    Print(String),
    /// A listing line, with columns to mark.
    List(String, Vec<Range<usize>>),
    /// Load this program.
    Load(String),
    /// Load and run this program.
    Run(String),
    /// Save the program to this file.
    Save(String),
    /// Clear the screen.
    Cls,
    /// The program waits for a key.
    Inkey,
}

/// What the loop does next.
pub enum Action {
    /// Leave the loop.
    Exit,
    /// Read a command line with this prompt, line recall on.
    ReadCommand(String),
    /// Read an input line with this prompt, from the upper-case editor where
    /// the flag holds.
    ReadInput(String, bool),
    /// Show these error texts, already painted, one a line.
    ShowErrors(Vec<String>),
    /// Nothing; run on.
    Continue,
    /// Print this text as it is, and flush.
    Print(String),
    /// Print this line.
    PrintLine(String),
    /// Load this program, and run it where the flag holds.
    Load(String, bool),
    /// Save the program to this file.
    Save(String),
    /// Clear the screen.
    ClearScreen,
    /// Wait for a key and hand its text to the machine.
    ReadKey,
}

/// The model of an `Action`.
pub enum ActionView {
    Exit,
    ReadCommand(Seq<char>),
    ReadInput(Seq<char>, bool),
    ShowErrors(Seq<Seq<char>>),
    Continue,
    Print(Seq<char>),
    PrintLine(Seq<char>),
    Load(Seq<char>, bool),
    Save(Seq<char>),
    ClearScreen,
    ReadKey,
}

impl View for Action {
    type V = ActionView;

    open spec fn view(&self) -> ActionView {
        match self {
            Action::Exit => ActionView::Exit,
            Action::ReadCommand(p) => ActionView::ReadCommand(p@),
            Action::ReadInput(p, c) => ActionView::ReadInput(p@, *c),
            Action::ShowErrors(v) => ActionView::ShowErrors(string_views(v@)),
            Action::Continue => ActionView::Continue,
            Action::Print(s) => ActionView::Print(s@),
            Action::PrintLine(s) => ActionView::PrintLine(s@),
            Action::Load(n, r) => ActionView::Load(n@, *r),
            Action::Save(n) => ActionView::Save(n@),
            Action::ClearScreen => ActionView::ClearScreen,
            Action::ReadKey => ActionView::ReadKey,
        }
    }
}

/// How reading a line ended.
pub enum LineResult {
    /// The user entered this line.
    Line(String),
    /// The user pressed Ctrl-C.
    Interrupted,
    /// The user pressed Ctrl-D.
    Eof,
    /// Reading failed.
    Failed,
}

/// What to do with a line that was read.
pub enum LineAction {
    /// Hand the line to the machine; keep it in the editor's history where
    /// the machine takes it.
    Enter(String),
    /// Drop the line and ask for the next command.
    Reprompt,
    /// Interrupt the running program.
    Interrupt,
    /// Leave the loop.
    Exit,
    /// Leave the loop with the editor's error.
    Fail,
}

/// Which editor a line is awaited from.
#[derive(Clone, Copy, Debug, PartialEq, Eq, Structural)]
pub enum Waiting {
    Nothing,
    Command,
    Input,
}

/// The model of a session.
pub struct SessionState {
    /// The text printed since the last line end.
    pub pending: Seq<char>,
    /// A program file was named on the command line: the loop ends when the
    /// program stops.
    pub batch: bool,
    pub waiting: Waiting,
}

/// The position of the last `c` in `s`, if any.
pub open spec fn last_index(s: Seq<char>, c: char) -> Option<int>
    decreases s.len(),
{
    if s.len() == 0 {
        None
    } else if s.last() == c {
        Some(s.len() - 1)
    } else {
        last_index(s.drop_last(), c)
    }
}

/// The partial line after printing `s` where `pending` was partial: what
/// follows the last line end of `s`, or `pending` and `s` where `s` has none.
pub open spec fn after_print(pending: Seq<char>, s: Seq<char>) -> Seq<char> {
    match last_index(s, '\n') {
        Some(i) => s.skip(i + 1),
        None => pending + s,
    }
}

/// The texts of errors as they are shown, in bold.
pub open spec fn error_texts(errors: Seq<Error>) -> Seq<Seq<char>> {
    errors.map_values(|e: Error| crate::error::shown_text(e.code, e.detail@))
}

/// The session's answer to event `e` in state `s`.
pub open spec fn on_event(s: SessionState, e: Event) -> (SessionState, ActionView) {
    let cleared = SessionState { pending: seq![], ..s };
    match e {
        Event::Stopped => if s.batch {
            (s, ActionView::Exit)
        } else {
            (
                SessionState { waiting: Waiting::Command, ..cleared },
                ActionView::ReadCommand(s.pending),
            )
        },
        Event::Input(prompt, caps) => (
            SessionState { waiting: Waiting::Input, ..cleared },
            ActionView::ReadInput(s.pending + prompt@, caps),
        ),
        Event::Errors(errors) => (cleared, ActionView::ShowErrors(error_texts(errors@))),
        Event::Running => (s, ActionView::Continue),
        Event::Print(t) => (
            SessionState { pending: after_print(s.pending, t@), ..s },
            ActionView::Print(t@),
        ),
        Event::List(t, columns) => (cleared, ActionView::PrintLine(decorated(t@, columns@))),
        Event::Load(n) => (s, ActionView::Load(n@, false)),
        Event::Run(n) => (s, ActionView::Load(n@, true)),
        Event::Save(n) => (s, ActionView::Save(n@)),
        Event::Cls => (cleared, ActionView::ClearScreen),
        Event::Inkey => (s, ActionView::ReadKey),
    }
}

proof fn lemma_last_index(s: Seq<char>, c: char)
    ensures
        match last_index(s, c) {
            Some(i) => 0 <= i < s.len() && s[i] == c && forall|j: int| i < j < s.len() ==> s[j] != c,
            None => forall|j: int| 0 <= j < s.len() ==> s[j] != c,
        },
    decreases s.len(),
{
    if s.len() > 0 && s.last() != c {
        let d = s.drop_last();
        lemma_last_index(d, c);
        assert forall|j: int| 0 <= j < d.len() implies d[j] == s[j] by {}
    }
}

/// The partial output line never holds a line end: printing text that has
/// one keeps only what follows its last line end.
pub proof fn law_pending_is_one_line(s: SessionState, e: Event)
    requires
        !s.pending.contains('\n'),
    ensures
        !on_event(s, e).0.pending.contains('\n'),
{
    if let Event::Print(t) = e {
        lemma_last_index(t@, '\n');
        let p = on_event(s, e).0.pending;
        match last_index(t@, '\n') {
            Some(i) => {
                assert forall|j: int| 0 <= j < p.len() implies p[j] != '\n' by {
                    assert(p[j] == t@[i + 1 + j]);
                }
            },
            None => {
                assert forall|j: int| 0 <= j < p.len() implies p[j] != '\n' by {
                    if j < s.pending.len() {
                        assert(p[j] == s.pending[j]);
                    } else {
                        assert(p[j] == t@[j - s.pending.len()]);
                    }
                }
            },
        }
    }
}

/// The state of a session after the events `es`, one after the other, from
/// state `s`.
pub open spec fn after_events(s: SessionState, es: Seq<Event>) -> SessionState
    decreases es.len(),
{
    if es.len() == 0 {
        s
    } else {
        on_event(after_events(s, es.drop_last()), es.last()).0
    }
}

/// Events that neither print, clear the partial line nor prompt.
pub open spec fn is_quiet(e: Event) -> bool {
    e is Running || e is Load || e is Run || e is Save || e is Inkey
}

/// Events that clear the partial output line.
pub open spec fn clears_line(e: Event, batch: bool) -> bool {
    e is Errors || e is List || e is Cls || e is Input || (e is Stopped && !batch)
}

/// The text that the events `es` print, one after the other.
pub open spec fn printed(es: Seq<Event>) -> Seq<char>
    decreases es.len(),
{
    if es.len() == 0 {
        seq![]
    } else {
        printed(es.drop_last()) + match es.last() {
            Event::Print(t) => t@,
            _ => seq![],
        }
    }
}

/// What follows the last line end of `t`, or all of `t` where it has none.
pub open spec fn line_tail(t: Seq<char>) -> Seq<char> {
    match last_index(t, '\n') {
        Some(i) => t.skip(i + 1),
        None => t,
    }
}

proof fn lemma_last_index_concat(a: Seq<char>, b: Seq<char>, c: char)
    ensures
        last_index(a + b, c) == (match last_index(b, c) {
            Some(j) => Some(a.len() + j),
            None => last_index(a, c),
        }),
    decreases b.len(),
{
    if b.len() == 0 {
        assert(a + b =~= a);
    } else {
        assert((a + b).drop_last() =~= a + b.drop_last());
        lemma_last_index_concat(a, b.drop_last(), c);
    }
}

proof fn lemma_after_print_tail(a: Seq<char>, b: Seq<char>)
    ensures
        after_print(line_tail(a), b) == line_tail(a + b),
{
    lemma_last_index_concat(a, b, '\n');
    match last_index(b, '\n') {
        Some(j) => {
            lemma_last_index(b, '\n');
            assert((a + b).skip(a.len() + j + 1) =~= b.skip(j + 1));
        },
        None => {
            match last_index(a, '\n') {
                Some(i) => {
                    lemma_last_index(a, '\n');
                    assert((a + b).skip(i + 1) =~= a.skip(i + 1) + b);
                },
                None => {},
            }
        },
    }
}

proof fn lemma_partial_line(s: SessionState, es: Seq<Event>)
    requires
        s.pending.len() == 0,
        forall|i: int| 0 <= i < es.len() ==> is_quiet(#[trigger] es[i]) || es[i] is Print,
    ensures
        after_events(s, es).pending == line_tail(printed(es)),
        after_events(s, es).batch == s.batch,
    decreases es.len(),
{
    if es.len() == 0 {
        assert(line_tail(seq![]) =~= Seq::<char>::empty());
    } else {
        let d = es.drop_last();
        assert forall|i: int| 0 <= i < d.len() implies is_quiet(#[trigger] d[i]) || d[i] is Print by {
            assert(d[i] == es[i]);
        }
        lemma_partial_line(s, d);
        let last = es.last();
        assert(is_quiet(es[es.len() - 1]) || es[es.len() - 1] is Print);
        match last {
            Event::Print(t) => {
                lemma_after_print_tail(printed(d), t@);
            },
            _ => {
                assert(printed(es) =~= printed(d));
            },
        }
    }
}

/// The partial output line is carried into the next prompt: after the
/// partial line was cleared, events that print or do nothing to it leave
/// what follows the last line end of all they printed (or all of it, where
/// it has none); an input request prompts with that before its own prompt,
/// and a stopped program's command prompt is that.
pub proof fn law_prompt_carries_partial_line(
    s: SessionState,
    es: Seq<Event>,
    prompt: String,
    caps: bool,
)
    requires
        s.pending.len() == 0,
        forall|i: int| 0 <= i < es.len() ==> is_quiet(#[trigger] es[i]) || es[i] is Print,
    ensures
        after_events(s, es).pending == line_tail(printed(es)),
        on_event(after_events(s, es), Event::Input(prompt, caps)).1 == ActionView::ReadInput(
            line_tail(printed(es)) + prompt@,
            caps,
        ),
        !s.batch ==> on_event(after_events(s, es), Event::Stopped).1 == ActionView::ReadCommand(
            line_tail(printed(es)),
        ),
{
    lemma_partial_line(s, es);
}

proof fn lemma_quiet_prints_nothing(es: Seq<Event>)
    requires
        forall|i: int| 0 <= i < es.len() ==> is_quiet(#[trigger] es[i]),
    ensures
        printed(es).len() == 0,
    decreases es.len(),
{
    if es.len() > 0 {
        let d = es.drop_last();
        assert forall|i: int| 0 <= i < d.len() implies is_quiet(#[trigger] d[i]) by {
            assert(d[i] == es[i]);
        }
        lemma_quiet_prints_nothing(d);
        assert(is_quiet(es[es.len() - 1]));
    }
}

/// No stale partial line survives a clearing event: after errors, a listing
/// line, a cleared screen or a prompt, and then only events that print
/// nothing, the next input request prompts with its own prompt alone and
/// the next command prompt is empty.
pub proof fn law_no_stale_partial_line(
    s: SessionState,
    e: Event,
    es: Seq<Event>,
    prompt: String,
    caps: bool,
)
    requires
        clears_line(e, s.batch),
        forall|i: int| 0 <= i < es.len() ==> is_quiet(#[trigger] es[i]),
    ensures
        on_event(s, e).0.pending.len() == 0,
        after_events(on_event(s, e).0, es).pending.len() == 0,
        on_event(after_events(on_event(s, e).0, es), Event::Input(prompt, caps)).1
            == ActionView::ReadInput(prompt@, caps),
        !s.batch ==> on_event(after_events(on_event(s, e).0, es), Event::Stopped).1
            == ActionView::ReadCommand(seq![]),
{
    let s1 = on_event(s, e).0;
    assert(s1.pending.len() == 0);
    assert(s1.batch == s.batch);
    lemma_quiet_prints_nothing(es);
    assert forall|i: int| 0 <= i < es.len() implies is_quiet(#[trigger] es[i]) || es[i] is Print by {}
    lemma_partial_line(s1, es);
    assert(printed(es) =~= Seq::<char>::empty());
    assert(line_tail(printed(es)) =~= Seq::<char>::empty());
    assert(Seq::<char>::empty() + prompt@ =~= prompt@);
}

/// The front end's state between events.
pub struct Session {
    pending: String,
    batch: bool,
    waiting: Waiting,
}

impl View for Session {
    type V = SessionState;

    closed spec fn view(&self) -> SessionState {
        SessionState { pending: self.pending@, batch: self.batch, waiting: self.waiting }
    }
}

/// The text that follows the last line end of `s`, if it has one.
fn after_last_newline(s: &str) -> (r: Option<String>)
    ensures
        match last_index(s@, '\n') {
            Some(i) => r matches Some(t) && t@ == s@.skip(i + 1),
            None => r is None,
        },
{
    let n = s.unicode_len();
    let mut j: usize = n;
    assert(s@.take(n as int) =~= s@);
    while j > 0 && s.get_char(j - 1) != '\n'
        invariant
            n == s@.len(),
            j <= n,
            last_index(s@, '\n') == last_index(s@.take(j as int), '\n'),
        decreases j,
    {
        assert(s@.take(j as int).drop_last() =~= s@.take(j - 1));
        j = j - 1;
    }
    if j == 0 {
        assert(s@.take(0) =~= Seq::<char>::empty());
        None
    } else {
        assert(s@.subrange(j as int, n as int) =~= s@.skip(j as int));
        Some(String::from_str(s.substring_char(j, n)))
    }
}

impl Session {
    /// A session with nothing printed yet; `batch` where a program file was
    /// named on the command line.
    pub fn new(batch: bool) -> (s: Session)
        ensures
            s@.pending.len() == 0,
            s@.batch == batch,
            s@.waiting == Waiting::Nothing,
    {
        Session { pending: String::new(), batch, waiting: Waiting::Nothing }
    }

    /// The text printed since the last line end.
    pub fn pending(&self) -> (p: &String)
        ensures
            p@ == self@.pending,
    {
        &self.pending
    }

    /// Takes event `e` of the machine: gives what to do, as `on_event` says.
    pub fn on_event(&mut self, e: Event) -> (a: Action)
        ensures
            (final(self)@, a@) == on_event(old(self)@, e),
    {
        let ghost ev = e;
        let ghost before = self@;
        match e {
            Event::Stopped => {
                if self.batch {
                    Action::Exit
                } else {
                    let mut prompt = String::new();
                    std::mem::swap(&mut prompt, &mut self.pending);
                    self.waiting = Waiting::Command;
                    Action::ReadCommand(prompt)
                }
            },
            Event::Input(prompt, caps) => {
                let full = concatenated(self.pending.as_str(), prompt.as_str());
                self.pending = String::new();
                self.waiting = Waiting::Input;
                Action::ReadInput(full, caps)
            },
            Event::Errors(errors) => {
                let mut texts: Vec<String> = Vec::new();
                let mut i: usize = 0;
                while i < errors.len()
                    invariant
                        i <= errors@.len(),
                        texts@.len() == i,
                        forall|k: int|
                            0 <= k < i ==> (#[trigger] texts@[k])@ == crate::error::shown_text(
                                errors@[k].code,
                                errors@[k].detail@,
                            ),
                    decreases errors@.len() - i,
                {
                    texts.push(errors[i].shown());
                    i = i + 1;
                }
                assert(string_views(texts@) =~= error_texts(errors@));
                self.pending = String::new();
                Action::ShowErrors(texts)
            },
            Event::Running => Action::Continue,
            Event::Print(t) => {
                match after_last_newline(t.as_str()) {
                    Some(rest) => {
                        self.pending = rest;
                    },
                    None => {
                        self.pending.append(t.as_str());
                    },
                }
                Action::Print(t)
            },
            Event::List(t, columns) => {
                let line = decorate_list(t.as_str(), columns.as_slice());
                self.pending = String::new();
                Action::PrintLine(line)
            },
            Event::Load(n) => Action::Load(n, false),
            Event::Run(n) => Action::Load(n, true),
            Event::Save(n) => Action::Save(n),
            Event::Cls => {
                self.pending = String::new();
                Action::ClearScreen
            },
            Event::Inkey => Action::ReadKey,
        }
    }

    /// A load or save failed and its error was shown: the partial line is
    /// gone.
    pub fn on_failure(&mut self)
        ensures
            final(self)@ == (SessionState { pending: seq![], ..old(self)@ }),
    {
        self.pending = String::new();
    }

    /// Takes how reading the awaited line ended: a line goes to the machine;
    /// Ctrl-C drops a command line and interrupts a program that asked for
    /// input; Ctrl-D leaves; a failure leaves with the error.
    pub fn on_line(&mut self, r: LineResult) -> (a: LineAction)
        ensures
            final(self)@ == (SessionState { waiting: Waiting::Nothing, ..old(self)@ }),
            match r {
                LineResult::Line(t) => a matches LineAction::Enter(u) && u@ == t@,
                LineResult::Interrupted => if old(self)@.waiting == Waiting::Input {
                    a is Interrupt
                } else {
                    a is Reprompt
                },
                LineResult::Eof => a is Exit,
                LineResult::Failed => a is Fail,
            },
    {
        let waiting = self.waiting;
        self.waiting = Waiting::Nothing;
        match r {
            LineResult::Line(t) => LineAction::Enter(t),
            LineResult::Interrupted => match waiting {
                Waiting::Input => LineAction::Interrupt,
                _ => LineAction::Reprompt,
            },
            LineResult::Eof => LineAction::Exit,
            LineResult::Failed => LineAction::Fail,
        }
    }
}

/// What the front end does with the program named on the command line.
pub enum Startup {
    /// Stop at once; the text, already painted, is shown first where there
    /// is one.
    Quit(Option<String>),
    /// Run this program without a prompt.
    Run(Listing),
}

/// The decision on the program named on the command line, once loaded: an
/// empty program ends the session, a failure ends it after showing the error,
/// any other program runs.
pub fn startup(loaded: Result<Listing, Error>) -> (s: Startup)
    ensures
        match loaded {
            Ok(l) => if l@.len() == 0 {
                s matches Startup::Quit(None)
            } else {
                s matches Startup::Run(m) && m@ == l@
            },
            Err(e) => s matches Startup::Quit(Some(t)) && t@ == crate::error::shown_text(
                e.code,
                e.detail@,
            ),
        },
{
    match loaded {
        Ok(l) => if l.is_empty() {
            Startup::Quit(None)
        } else {
            Startup::Run(l)
        },
        Err(e) => Startup::Quit(Some(e.shown())),
    }
}

/// An input request always waits on the input editor, whatever its caps
/// flag, so that Ctrl-C at any input prompt interrupts the program; the
/// prompt shown is the partial line followed by the request's prompt.
pub proof fn law_input_waits_on_input_editor(s: SessionState, prompt: String, caps: bool)
    ensures
        on_event(s, Event::Input(prompt, caps)).0.waiting == Waiting::Input,
        on_event(s, Event::Input(prompt, caps)).1 == ActionView::ReadInput(s.pending + prompt@, caps),
{
}

/// In a batch session a stopped program always ends the loop, whatever was
/// printed before; in an interactive one it never does.
pub proof fn law_batch_stop_exits(s: SessionState)
    ensures
        s.batch ==> on_event(s, Event::Stopped).1 == ActionView::Exit,
        !s.batch ==> on_event(s, Event::Stopped).1 != ActionView::Exit,
{
}

} // verus!
