//! The remote-helper command protocol: reading command lines, batching push
//! and fetch requests, and flushing the batch on a blank line.
//!
//! The protocol is a state machine. It reads and writes nothing itself: the
//! caller hands it each [`Event`] and gets back a [`Step`], the lines to
//! write and the [`Action`] to take next.

use std::collections::VecDeque;
use vstd::prelude::*;
use vstd::string::StrSliceExecFns;
use vstd::string::StringExecFns;
use crate::error::{Error, ErrorView};
use crate::text::{
    chars_of, has_prefix, is_word, run_end, scan, starts_with, strip_newlines, trim_newlines,
    CharClass,
};

verus! {

/// A request to push the local ref `src` to the remote ref `dest`.
#[derive(Clone, Debug, PartialEq, Eq)]
pub struct PushArgs {
    pub src: String,
    pub dest: String,
    pub force: bool,
}

/// A request to fetch the object graph below the digest `hash`, given in
/// hexadecimal, for the ref `ref_name`.
#[derive(Clone, Debug, PartialEq, Eq)]
pub struct FetchArgs {
    pub hash: String,
    pub ref_name: String,
}

/// A request that waits in the batch.
#[derive(Clone, Debug, PartialEq, Eq)]
pub enum Command {
    Push(PushArgs),
    Fetch(FetchArgs),
}

/// The mathematical form of a [`Command`].
pub enum Request {
    Push { src: Seq<char>, dest: Seq<char>, force: bool },
    Fetch { hash: Seq<char>, ref_name: Seq<char> },
}

impl View for Command {
    type V = Request;

    open spec fn view(&self) -> Request {
        match self {
            Command::Push(args) => Request::Push {
                src: args.src@,
                dest: args.dest@,
                force: args.force,
            },
            Command::Fetch(args) => Request::Fetch { hash: args.hash@, ref_name: args.ref_name@ },
        }
    }
}

impl DeepView for Command {
    type V = Request;

    open spec fn deep_view(&self) -> Request {
        self@
    }
}

/// What a command line says.
#[derive(Clone, Debug, PartialEq, Eq)]
pub enum Input {
    /// `capabilities`
    Capabilities,
    /// `list` or `list for-push`
    List,
    /// `push` or `fetch` with its arguments
    Batched(Command),
    /// The empty line.
    Blank,
}

/// The mathematical form of what a command line says; `Invalid` for a line
/// that is no command.
pub enum LineKind {
    Capabilities,
    List,
    Batched(Request),
    Blank,
    Invalid,
}

impl View for Input {
    type V = LineKind;

    open spec fn view(&self) -> LineKind {
        match self {
            Input::Capabilities => LineKind::Capabilities,
            Input::List => LineKind::List,
            Input::Batched(command) => LineKind::Batched(command@),
            Input::Blank => LineKind::Blank,
        }
    }
}

/// The request of a `push` line, whose text begins with `push `. After an
/// optional `+`, which asks for force, the source runs to the first colon;
/// the destination runs from there to the next colon or the end. A line
/// without a colon holds no request.
pub open spec fn parse_push(text: Seq<char>) -> Option<Request> {
    let force = text.len() > 5 && text[5] == '+';
    let start: int = if force {
        6
    } else {
        5
    };
    let colon = run_end(text, start, CharClass::Except(':'));
    if colon >= text.len() {
        None
    } else {
        let end = run_end(text, colon + 1, CharClass::Except(':'));
        Some(
            Request::Push {
                src: text.subrange(start, colon),
                dest: text.subrange(colon + 1, end),
                force,
            },
        )
    }
}

/// The request of a `fetch` line, whose text begins with `fetch `: the
/// first two words after it are the digest and the ref name. A line with
/// fewer than two words holds no request.
pub open spec fn parse_fetch(text: Seq<char>) -> Option<Request> {
    let a = run_end(text, 6, CharClass::Space);
    let b = run_end(text, a, CharClass::Word);
    let c = run_end(text, b, CharClass::Space);
    let d = run_end(text, c, CharClass::Word);
    if a < b && c < d {
        Some(Request::Fetch { hash: text.subrange(a, b), ref_name: text.subrange(c, d) })
    } else {
        None
    }
}

/// What the command line `line` says, once the line feeds at its end are
/// taken off.
pub open spec fn classify(line: Seq<char>) -> LineKind {
    let text = strip_newlines(line);
    if text == "capabilities"@ {
        LineKind::Capabilities
    } else if text == "list"@ || text == "list for-push"@ {
        LineKind::List
    } else if text.len() == 0 {
        LineKind::Blank
    } else if starts_with(text, "push "@) {
        match parse_push(text) {
            Some(request) => LineKind::Batched(request),
            None => LineKind::Invalid,
        }
    } else if starts_with(text, "fetch "@) {
        match parse_fetch(text) {
            Some(request) => LineKind::Batched(request),
            None => LineKind::Invalid,
        }
    } else {
        LineKind::Invalid
    }
}

/// The characters of `line` from `from` up to `to`, as a string.
fn piece(line: &str, from: usize, to: usize) -> (s: String)
    requires
        from <= to <= line@.len(),
    ensures
        s@ == line@.subrange(from as int, to as int),
{
    line.substring_char(from, to).to_owned()
}

/// Reads a command line. A line that is no command is refused with
/// [`Error::InvalidCommand`], which carries the line without the line feeds
/// at its end.
pub fn parse_command(line: &str) -> (r: Result<Input, Error>)
    ensures
        match r {
            Ok(input) => classify(line@) == input@,
            Err(e) => classify(line@) is Invalid && e@ == ErrorView::InvalidCommand(
                strip_newlines(line@),
            ),
        },
{
    let chars = chars_of(line);
    let end = trim_newlines(&chars);
    let ghost text = strip_newlines(line@);
    proof {
        reveal_strlit("push ");
        reveal_strlit("fetch ");
    }
    if is_word(&chars, end, "capabilities") {
        return Ok(Input::Capabilities);
    }
    if is_word(&chars, end, "list") || is_word(&chars, end, "list for-push") {
        return Ok(Input::List);
    }
    if end == 0 {
        return Ok(Input::Blank);
    }
    if has_prefix(&chars, end, "push ") {
        let force = end > 5 && chars[5] == '+';
        let start: usize = if force {
            6
        } else {
            5
        };
        let colon = scan(&chars, start, end, CharClass::Except(':'));
        if colon < end {
            let stop = scan(&chars, colon + 1, end, CharClass::Except(':'));
            let src = piece(line, start, colon);
            let dest = piece(line, colon + 1, stop);
            assert(text.subrange(start as int, colon as int) =~= line@.subrange(
                start as int,
                colon as int,
            ));
            assert(text.subrange(colon + 1, stop as int) =~= line@.subrange(
                colon + 1,
                stop as int,
            ));
            return Ok(Input::Batched(Command::Push(PushArgs { src, dest, force })));
        }
    } else if has_prefix(&chars, end, "fetch ") {
        let a = scan(&chars, 6, end, CharClass::Space);
        let b = scan(&chars, a, end, CharClass::Word);
        let c = scan(&chars, b, end, CharClass::Space);
        let d = scan(&chars, c, end, CharClass::Word);
        if a < b && c < d {
            let hash = piece(line, a, b);
            let ref_name = piece(line, c, d);
            assert(text.subrange(a as int, b as int) =~= line@.subrange(a as int, b as int));
            assert(text.subrange(c as int, d as int) =~= line@.subrange(c as int, d as int));
            return Ok(Input::Batched(Command::Fetch(FetchArgs { hash, ref_name })));
        }
    }
    let offending = piece(line, 0, end);
    assert(line@.subrange(0, end as int) =~= text);
    Err(Error::InvalidCommand(offending))
}

/// The root that the caller of the helper names for a repository that has
/// no branch of its own yet.
#[derive(Clone, Debug, PartialEq, Eq)]
pub struct Handler {
    remote_hash: String,
}

impl View for Handler {
    type V = Seq<char>;

    closed spec fn view(&self) -> Seq<char> {
        self.remote_hash@
    }
}

impl Handler {
    /// Keeps `hash` as the remote root.
    pub fn new(hash: String) -> (handler: Handler)
        ensures
            handler@ == hash@,
    {
        Handler { remote_hash: hash }
    }

    /// The remote root.
    pub fn remote_hash(&self) -> (hash: &str)
        ensures
            hash@ == self@,
    {
        self.remote_hash.as_str()
    }
}

/// What `HEAD` holds: the hexadecimal identifier of an object, or the name
/// of the ref that it stands for.
#[derive(Clone, Debug, PartialEq, Eq)]
pub enum Head {
    Direct(String),
    Symbolic(String),
}

/// The refs of the local repository: the names of its branches, and `HEAD`.
#[derive(Clone, Debug, PartialEq, Eq)]
pub struct RefList {
    pub branches: Vec<String>,
    pub head: Head,
}

/// The mathematical form of a [`Head`].
pub enum HeadView {
    Direct(Seq<char>),
    Symbolic(Seq<char>),
}

impl View for Head {
    type V = HeadView;

    open spec fn view(&self) -> HeadView {
        match self {
            Head::Direct(id) => HeadView::Direct(id@),
            Head::Symbolic(target) => HeadView::Symbolic(target@),
        }
    }
}

/// The line that lists `HEAD`: its value, or `@` and its target, then
/// ` HEAD`.
pub open spec fn head_line(head: HeadView) -> Seq<char> {
    match head {
        HeadView::Direct(id) => id + " HEAD"@,
        HeadView::Symbolic(target) => "@"@ + target + " HEAD"@,
    }
}

/// The lines that list the branches: `? ` and the name for each; or, for a
/// repository without a branch, the remote root as the value of
/// `refs/heads/master`.
pub open spec fn branch_lines(remote_hash: Seq<char>, branches: Seq<Seq<char>>) -> Seq<Seq<char>> {
    if branches.len() == 0 {
        seq![remote_hash + " refs/heads/master"@]
    } else {
        branches.map_values(|name: Seq<char>| "? "@ + name)
    }
}

/// The lines that answer `list`, without the blank line that ends them.
pub open spec fn ref_lines(
    remote_hash: Seq<char>,
    branches: Seq<Seq<char>>,
    head: HeadView,
) -> Seq<Seq<char>> {
    branch_lines(remote_hash, branches).push(head_line(head))
}

/// What the caller of the protocol reports.
#[derive(Clone, Debug, PartialEq, Eq)]
pub enum Event {
    /// A line was read from the input, with or without its line feed.
    Line(String),
    /// The input has ended.
    EndOfInput,
    /// The refs of the local repository, in answer to [`Action::ListRefs`].
    Refs(RefList),
    /// The command of [`Action::Perform`] was carried out.
    Completed,
}

/// What the caller of the protocol has to do next.
#[derive(Clone, Debug, PartialEq, Eq)]
pub enum Action {
    /// Read the next line and report it, or the end of the input.
    ReadLine,
    /// Look up the refs of the local repository and report them.
    ListRefs,
    /// Carry out this push or fetch and report its completion.
    Perform(Command),
    /// Stop: the session is over.
    Stop,
}

/// One step of the protocol: the lines to write, each followed by a line
/// feed, and the action to take then.
#[derive(Clone, Debug, PartialEq, Eq)]
pub struct Step {
    pub output: Vec<String>,
    pub action: Action,
}

/// The mathematical form of an [`Event`].
pub enum EventView {
    Line(Seq<char>),
    EndOfInput,
    Refs { branches: Seq<Seq<char>>, head: HeadView },
    Completed,
}

/// The mathematical form of an [`Action`].
pub enum ActionView {
    ReadLine,
    ListRefs,
    Perform(Request),
    Stop,
}

/// The mathematical form of a [`Step`].
pub struct StepView {
    pub output: Seq<Seq<char>>,
    pub action: ActionView,
}

impl View for Event {
    type V = EventView;

    open spec fn view(&self) -> EventView {
        match self {
            Event::Line(line) => EventView::Line(line@),
            Event::EndOfInput => EventView::EndOfInput,
            Event::Refs(refs) => EventView::Refs {
                branches: refs.branches.deep_view(),
                head: refs.head@,
            },
            Event::Completed => EventView::Completed,
        }
    }
}

impl View for Action {
    type V = ActionView;

    open spec fn view(&self) -> ActionView {
        match self {
            Action::ReadLine => ActionView::ReadLine,
            Action::ListRefs => ActionView::ListRefs,
            Action::Perform(command) => ActionView::Perform(command@),
            Action::Stop => ActionView::Stop,
        }
    }
}

impl View for Step {
    type V = StepView;

    open spec fn view(&self) -> StepView {
        StepView { output: self.output.deep_view(), action: self.action@ }
    }
}

/// Where the protocol stands.
pub enum RemotePhase {
    /// A command line is awaited.
    Reading,
    /// The refs of the repository are awaited.
    Listing,
    /// A command of the batch is being carried out; `owed` are the lines to
    /// write when it completes.
    Flushing { owed: Seq<Seq<char>> },
    /// The session is over.
    Stopped,
}

/// The state of the protocol: the requests of the batch in the order in
/// which they came, and the phase.
pub struct RemoteState {
    pub batch: Seq<Request>,
    pub phase: RemotePhase,
}

/// The lines that acknowledge a request once it is carried out: `ok ` and
/// the source for a push, nothing for a fetch.
pub open spec fn acknowledgement(request: Request) -> Seq<Seq<char>> {
    match request {
        Request::Push { src, dest, force } => seq!["ok "@ + src],
        Request::Fetch { hash, ref_name } => Seq::empty(),
    }
}

/// Goes on with the flush after the lines in `output`: hands out the first
/// request of the batch, or, when none is left, ends the output with one
/// blank line and stops.
pub open spec fn flush_next(batch: Seq<Request>, output: Seq<Seq<char>>) -> (
    RemoteState,
    StepView,
) {
    if batch.len() == 0 {
        (
            RemoteState { batch, phase: RemotePhase::Stopped },
            StepView { output: output.push(Seq::empty()), action: ActionView::Stop },
        )
    } else {
        (
            RemoteState {
                batch: batch.skip(1),
                phase: RemotePhase::Flushing { owed: acknowledgement(batch[0]) },
            },
            StepView { output, action: ActionView::Perform(batch[0]) },
        )
    }
}

/// A step that writes nothing.
pub open spec fn silent(action: ActionView) -> StepView {
    StepView { output: Seq::empty(), action }
}

/// The transition of the protocol: the state and step that follow when
/// `event` is reported in state `s`; `remote_hash` is the root that the
/// caller of the helper has named.
///
/// `capabilities` is answered at once with `push`, `fetch` and a blank
/// line. `list` is answered, once the refs are reported, with their lines
/// and a blank line. A push or fetch joins the batch and is not answered.
/// A blank line flushes the batch: its requests are handed out in the order
/// in which they came, each completed push is acknowledged, and after the
/// last request one blank line is written and the session stops. A blank
/// line with nothing batched is answered in the same way: one blank line is
/// written and the session stops. The end of the input counts as a blank
/// line. Any other line is an error, and so is an event that was not asked
/// for.
pub open spec fn remote_step(s: RemoteState, remote_hash: Seq<char>, event: EventView) -> Result<
    (RemoteState, StepView),
    ErrorView,
> {
    match (s.phase, event) {
        (RemotePhase::Reading, EventView::Line(line)) => match classify(line) {
            LineKind::Capabilities => Ok(
                (
                    s,
                    StepView {
                        output: seq!["push"@, "fetch"@, Seq::empty()],
                        action: ActionView::ReadLine,
                    },
                ),
            ),
            LineKind::List => Ok(
                (
                    RemoteState { batch: s.batch, phase: RemotePhase::Listing },
                    silent(ActionView::ListRefs),
                ),
            ),
            LineKind::Batched(request) => Ok(
                (
                    RemoteState { batch: s.batch.push(request), phase: RemotePhase::Reading },
                    silent(ActionView::ReadLine),
                ),
            ),
            LineKind::Blank => Ok(flush_next(s.batch, Seq::empty())),
            LineKind::Invalid => Err(ErrorView::InvalidCommand(strip_newlines(line))),
        },
        (RemotePhase::Reading, EventView::EndOfInput) => Ok(flush_next(s.batch, Seq::empty())),
        (RemotePhase::Listing, EventView::Refs { branches, head }) => Ok(
            (
                RemoteState { batch: s.batch, phase: RemotePhase::Reading },
                StepView {
                    output: ref_lines(remote_hash, branches, head).push(Seq::empty()),
                    action: ActionView::ReadLine,
                },
            ),
        ),
        (RemotePhase::Flushing { owed }, EventView::Completed) => Ok(flush_next(s.batch, owed)),
        _ => Err(ErrorView::UnexpectedEvent),
    }
}

/// The state in which a session starts: nothing batched, a line awaited.
pub open spec fn remote_start() -> RemoteState {
    RemoteState { batch: Seq::empty(), phase: RemotePhase::Reading }
}

/// The state of a session that has failed: nothing batched, stopped.
pub open spec fn remote_stopped() -> RemoteState {
    RemoteState { batch: Seq::empty(), phase: RemotePhase::Stopped }
}

enum Phase {
    Reading,
    Listing,
    Flushing { owed: Vec<String> },
    Stopped,
}

impl View for Phase {
    type V = RemotePhase;

    closed spec fn view(&self) -> RemotePhase {
        match self {
            Phase::Reading => RemotePhase::Reading,
            Phase::Listing => RemotePhase::Listing,
            Phase::Flushing { owed } => RemotePhase::Flushing { owed: owed.deep_view() },
            Phase::Stopped => RemotePhase::Stopped,
        }
    }
}

/// The requests in a batch.
pub open spec fn batch_view(batch: Seq<Command>) -> Seq<Request> {
    batch.map_values(|command: Command| command@)
}

/// A session of the command protocol.
pub struct Remote {
    batch: VecDeque<Command>,
    phase: Phase,
}

impl View for Remote {
    type V = RemoteState;

    closed spec fn view(&self) -> RemoteState {
        RemoteState { batch: batch_view(self.batch@), phase: self.phase@ }
    }
}

impl Remote {
    /// A session at its start.
    pub fn new() -> (remote: Remote)
        ensures
            remote@ == remote_start(),
    {
        let remote = Remote { batch: VecDeque::new(), phase: Phase::Reading };
        assert(batch_view(remote.batch@) =~= Seq::empty());
        remote
    }

    /// The lines that answer `list` for the refs `refs`, without the blank
    /// line that ends them.
    pub fn list(&self, handler: &Handler, refs: &RefList) -> (lines: Vec<String>)
        ensures
            lines.deep_view() == ref_lines(handler@, refs.branches.deep_view(), refs.head@),
    {
        let ghost names = refs.branches.deep_view();
        let mut lines: Vec<String> = Vec::new();
        if refs.branches.len() == 0 {
            let mut line = String::from_str(handler.remote_hash());
            line.append(" refs/heads/master");
            lines.push(line);
            assert(lines.deep_view() =~= branch_lines(handler@, names));
        } else {
            let mut i: usize = 0;
            while i < refs.branches.len()
                invariant
                    i <= refs.branches.len(),
                    names == refs.branches.deep_view(),
                    lines.deep_view() == names.take(i as int).map_values(
                        |name: Seq<char>| "? "@ + name,
                    ),
                decreases refs.branches.len() - i,
            {
                let mut line = String::from_str("? ");
                line.append(refs.branches[i].as_str());
                let ghost before = lines.deep_view();
                lines.push(line);
                assert(lines.deep_view() =~= before.push("? "@ + names[i as int]));
                assert(names.take(i + 1).map_values(|name: Seq<char>| "? "@ + name)
                    =~= names.take(i as int).map_values(|name: Seq<char>| "? "@ + name).push(
                    "? "@ + names[i as int],
                ));
                i = i + 1;
            }
            assert(names.take(i as int) =~= names);
        }
        let head = match &refs.head {
            Head::Direct(id) => {
                let mut line = String::from_str(id.as_str());
                line.append(" HEAD");
                line
            },
            Head::Symbolic(target) => {
                let mut line = String::from_str("@");
                line.append(target.as_str());
                line.append(" HEAD");
                line
            },
        };
        let ghost before = lines.deep_view();
        lines.push(head);
        assert(lines.deep_view() =~= before.push(head_line(refs.head@)));
        lines
    }

    /// Goes on with the flush after the lines in `output`.
    fn flush(&mut self, output: Vec<String>) -> (step: Step)
        ensures
            (final(self)@, step@) == flush_next(batch_view(old(self).batch@), output.deep_view()),
    {
        let ghost batch0 = batch_view(self.batch@);
        let mut output = output;
        match self.batch.pop_front() {
            None => {
                self.phase = Phase::Stopped;
                let ghost before = output.deep_view();
                output.push(String::new());
                assert(output.deep_view() =~= before.push(Seq::empty()));
                Step { output, action: Action::Stop }
            },
            Some(command) => {
                assert(batch_view(self.batch@) =~= batch0.skip(1));
                let mut owed: Vec<String> = Vec::new();
                match &command {
                    Command::Push(args) => {
                        let mut line = String::from_str("ok ");
                        line.append(args.src.as_str());
                        owed.push(line);
                        assert(owed.deep_view() =~= acknowledgement(command@));
                    },
                    Command::Fetch(args) => {
                        assert(owed.deep_view() =~= acknowledgement(command@));
                    },
                }
                self.phase = Phase::Flushing { owed };
                Step { output, action: Action::Perform(command) }
            },
        }
    }

    /// Takes the protocol one step further: `event` is what the caller
    /// reports, and the step returned holds the lines to write and the
    /// action to take next. `handler` names the remote root. After an error
    /// the session is over.
    pub fn process_commands(&mut self, handler: &Handler, event: Event) -> (r: Result<
        Step,
        Error,
    >)
        ensures
            match r {
                Ok(step) => remote_step(old(self)@, handler@, event@) == Ok::<
                    (RemoteState, StepView),
                    ErrorView,
                >((final(self)@, step@)),
                Err(e) => remote_step(old(self)@, handler@, event@) == Err::<
                    (RemoteState, StepView),
                    ErrorView,
                >(e@) && final(self)@ == remote_stopped(),
            },
    {
        let mut phase = Phase::Stopped;
        std::mem::swap(&mut self.phase, &mut phase);
        let ghost batch0 = batch_view(self.batch@);
        let r = match (phase, event) {
            (Phase::Reading, Event::Line(line)) => {
                match parse_command(line.as_str()) {
                    Err(e) => Err(e),
                    Ok(Input::Capabilities) => {
                        self.phase = Phase::Reading;
                        let mut output: Vec<String> = Vec::new();
                        output.push(String::from_str("push"));
                        output.push(String::from_str("fetch"));
                        output.push(String::new());
                        assert(output.deep_view() =~= seq!["push"@, "fetch"@, Seq::empty()]);
                        Ok(Step { output, action: Action::ReadLine })
                    },
                    Ok(Input::List) => {
                        self.phase = Phase::Listing;
                        Ok(quiet(Action::ListRefs))
                    },
                    Ok(Input::Batched(command)) => {
                        self.phase = Phase::Reading;
                        self.batch.push_back(command);
                        assert(batch_view(self.batch@) =~= batch0.push(command@));
                        Ok(quiet(Action::ReadLine))
                    },
                    Ok(Input::Blank) => Ok(self.flush(no_lines())),
                }
            },
            (Phase::Reading, Event::EndOfInput) => Ok(self.flush(no_lines())),
            (Phase::Listing, Event::Refs(refs)) => {
                self.phase = Phase::Reading;
                let mut output = self.list(handler, &refs);
                let ghost before = output.deep_view();
                output.push(String::new());
                assert(output.deep_view() =~= before.push(Seq::empty()));
                Ok(Step { output, action: Action::ReadLine })
            },
            (Phase::Flushing { owed }, Event::Completed) => Ok(self.flush(owed)),
            _ => Err(Error::UnexpectedEvent),
        };
        if r.is_err() {
            self.batch = VecDeque::new();
            self.phase = Phase::Stopped;
            assert(batch_view(self.batch@) =~= Seq::empty());
        }
        r
    }
}

/// No lines.
fn no_lines() -> (lines: Vec<String>)
    ensures
        lines.deep_view() == Seq::<Seq<char>>::empty(),
{
    let lines: Vec<String> = Vec::new();
    assert(lines.deep_view() =~= Seq::empty());
    lines
}

/// A step that writes nothing.
fn quiet(action: Action) -> (step: Step)
    ensures
        step@ == silent(action@),
{
    Step { output: no_lines(), action }
}

} // verus!
