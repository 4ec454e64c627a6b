//! The run of one invocation, one step at a time.
//!
//! Reading and writing are the caller's business. A [`Run`] tells the caller
//! what to do next, is told what came of it, and says what to write. The
//! sources are taken in their order. One that cannot be opened is reported and
//! passed over; a failure to read ends the run.

use crate::cli::{Cli, ExtractionMode, Invocation, Selection, STDIN_NAME};
use crate::extract::{
    extract_bytes, extract_chars, extract_fields, lossy_text, reads_encoded,
};
use crate::record::fields_of;
use crate::select::select;
use csv::StringRecord;
use vstd::prelude::*;
use vstd::utf8::encode_utf8;

verus! {

/// Where a run stands with respect to its current source.
#[derive(Debug, Clone, Copy, PartialEq, Eq, Structural)]
pub enum Phase {
    /// The current source is to be opened.
    Opening,
    /// The current source is open and is being read.
    Reading,
    /// Every source has been dealt with.
    Finished,
    /// A read failed; the run is over.
    Failed,
}

/// How far a run has come: the index of its current source, and the phase.
pub struct Progress {
    pub position: nat,
    pub phase: Phase,
}

/// A source, as a mathematical value.
pub enum SourceView {
    Stdin,
    File(Seq<char>),
}

/// A source of lines or records.
#[derive(Debug, PartialEq, Eq)]
pub enum Source {
    /// Standard input.
    Stdin,
    /// The file of this name.
    File(String),
}

impl View for Source {
    type V = SourceView;

    open spec fn view(&self) -> SourceView {
        match self {
            Source::Stdin => SourceView::Stdin,
            Source::File(name) => SourceView::File(name@),
        }
    }
}

/// A request, as a mathematical value.
pub enum RequestView {
    Open(SourceView),
    ReadLine,
    ReadRecord(u8),
    Finish,
    Fail,
}

/// What the caller is to do next.
#[derive(Debug, PartialEq, Eq)]
pub enum Request {
    /// Open this source, and answer `Opened` or `OpenFailed`.
    Open(Source),
    /// Read the next line of the open source, without its line ending, and
    /// answer `Line`, `EndOfInput` or `ReadFailed`.
    ReadLine,
    /// Read the next record of the open source, whose fields this byte
    /// delimits and which has no header row, and answer `Record`,
    /// `EndOfInput` or `ReadFailed`.
    ReadRecord(u8),
    /// Stop: every source has been dealt with.
    Finish,
    /// Stop, and report the failure to read.
    Fail,
}

impl View for Request {
    type V = RequestView;

    open spec fn view(&self) -> RequestView {
        match self {
            Request::Open(source) => RequestView::Open(source@),
            Request::ReadLine => RequestView::ReadLine,
            Request::ReadRecord(delimiter) => RequestView::ReadRecord(*delimiter),
            Request::Finish => RequestView::Finish,
            Request::Fail => RequestView::Fail,
        }
    }
}

/// An event, as a mathematical value.
pub enum EventView {
    Opened,
    OpenFailed(Seq<char>),
    Line(Seq<char>),
    Record(Seq<Seq<char>>),
    EndOfInput,
    ReadFailed,
}

/// What came of a request.
#[derive(Debug)]
pub enum Event {
    /// The source is open.
    Opened,
    /// The source could not be opened, for this reason.
    OpenFailed(String),
    /// The next line of the source.
    Line(String),
    /// The next record of the source.
    Record(StringRecord),
    /// The source has no more to give.
    EndOfInput,
    /// The source could not be read.
    ReadFailed,
}

impl View for Event {
    type V = EventView;

    open spec fn view(&self) -> EventView {
        match self {
            Event::Opened => EventView::Opened,
            Event::OpenFailed(cause) => EventView::OpenFailed(cause@),
            Event::Line(text) => EventView::Line(text@),
            Event::Record(record) => EventView::Record(fields_of(*record)),
            Event::EndOfInput => EventView::EndOfInput,
            Event::ReadFailed => EventView::ReadFailed,
        }
    }
}

/// An output, as a mathematical value.
pub enum OutputView {
    Nothing,
    Line(Seq<char>),
    Record(Seq<Seq<char>>),
    Diagnostic(Seq<char>),
}

/// What the caller is to write after a step.
#[derive(Debug, PartialEq, Eq)]
pub enum Output {
    /// Nothing.
    Nothing,
    /// This text, as one line of the output.
    Line(String),
    /// These fields, as one record of the output, delimited as the input is.
    Record(Vec<String>),
    /// This text, as one line of the diagnostics.
    Diagnostic(String),
}

impl View for Output {
    type V = OutputView;

    open spec fn view(&self) -> OutputView {
        match self {
            Output::Nothing => OutputView::Nothing,
            Output::Line(text) => OutputView::Line(text@),
            Output::Record(fields) => OutputView::Record(fields.deep_view()),
            Output::Diagnostic(text) => OutputView::Diagnostic(text@),
        }
    }
}

/// The source that a name stands for: standard input has a name of its own,
/// any other name is a file.
pub open spec fn source_of(name: Seq<char>) -> SourceView {
    if name == STDIN_NAME@ {
        SourceView::Stdin
    } else {
        SourceView::File(name)
    }
}

/// The byte that delimits fields: the low eight bits of the delimiter.
pub open spec fn delimiter_byte(delimiter: char) -> u8 {
    (delimiter as u32 % 256) as u8
}

/// A run is somewhere among its sources, and at one of them while it opens or
/// reads.
pub open spec fn in_order(invocation: Invocation, progress: Progress) -> bool {
    match progress.phase {
        Phase::Opening | Phase::Reading => progress.position < invocation.files.len(),
        Phase::Finished | Phase::Failed => progress.position <= invocation.files.len(),
    }
}

/// Where a run begins: at its first source, or at its end if it has none.
pub open spec fn begin(invocation: Invocation) -> Progress {
    Progress {
        position: 0,
        phase: if invocation.files.len() == 0 {
            Phase::Finished
        } else {
            Phase::Opening
        },
    }
}

/// Leaving the current source: on to the next one, or to the end after the
/// last.
pub open spec fn leave(invocation: Invocation, progress: Progress) -> Progress {
    Progress {
        position: progress.position + 1,
        phase: if progress.position + 1 < invocation.files.len() {
            Phase::Opening
        } else {
            Phase::Finished
        },
    }
}

/// What a run asks for where it stands.
pub open spec fn pending(invocation: Invocation, progress: Progress) -> RequestView {
    match progress.phase {
        Phase::Opening => RequestView::Open(source_of(invocation.files[progress.position as int])),
        Phase::Reading => match invocation.extract {
            Selection::Fields(_) => RequestView::ReadRecord(delimiter_byte(invocation.delimiter)),
            _ => RequestView::ReadLine,
        },
        Phase::Finished => RequestView::Finish,
        Phase::Failed => RequestView::Fail,
    }
}

/// Where a run stands after an event. An event that does not answer the
/// pending request changes nothing.
pub open spec fn next(invocation: Invocation, progress: Progress, event: EventView) -> Progress {
    match (progress.phase, event) {
        (Phase::Opening, EventView::Opened) => Progress {
            position: progress.position,
            phase: Phase::Reading,
        },
        (Phase::Opening, EventView::OpenFailed(_)) => leave(invocation, progress),
        (Phase::Reading, EventView::EndOfInput) => leave(invocation, progress),
        (Phase::Reading, EventView::ReadFailed) => Progress {
            position: progress.position,
            phase: Phase::Failed,
        },
        _ => progress,
    }
}

/// What is written after an event: the selection from a line or a record
/// that was read, or the report of a source that could not be opened, which
/// is its name, a colon and a space, and the reason.
pub open spec fn output(invocation: Invocation, progress: Progress, event: EventView)
    -> OutputView {
    match (progress.phase, event, invocation.extract) {
        (Phase::Opening, EventView::OpenFailed(cause), _) => OutputView::Diagnostic(
            invocation.files[progress.position as int] + ": "@ + cause,
        ),
        (Phase::Reading, EventView::Line(text), Selection::Chars(ranges)) => OutputView::Line(
            select(text, ranges),
        ),
        (Phase::Reading, EventView::Line(text), Selection::Bytes(ranges)) => OutputView::Line(
            lossy_text(select(encode_utf8(text), ranges)),
        ),
        (Phase::Reading, EventView::Record(fields), Selection::Fields(ranges)) =>
            OutputView::Record(select(fields, ranges)),
        _ => OutputView::Nothing,
    }
}

/// Whether what was written for the bytes of a line is a faithful reading of
/// them. Nothing is asked of any other output.
pub open spec fn faithful(
    invocation: Invocation,
    progress: Progress,
    event: EventView,
    out: OutputView,
) -> bool {
    match (progress.phase, event, invocation.extract, out) {
        (
            Phase::Reading,
            EventView::Line(text),
            Selection::Bytes(ranges),
            OutputView::Line(written),
        ) => reads_encoded(select(encode_utf8(text), ranges), written),
        _ => true,
    }
}

/// A step keeps a run among its sources, and moves it forward by one source
/// at most, never back.
pub proof fn lemma_step_in_order(invocation: Invocation, progress: Progress, event: EventView)
    requires
        in_order(invocation, progress),
    ensures
        in_order(invocation, next(invocation, progress, event)),
        progress.position <= next(invocation, progress, event).position <= progress.position + 1,
{
}

/// A source that cannot be opened does not end the run. It is reported, and
/// the run goes on to the next source, or finishes if that was the last.
pub proof fn lemma_open_failure_passed_over(
    invocation: Invocation,
    progress: Progress,
    cause: Seq<char>,
)
    requires
        progress.phase is Opening,
    ensures
        next(invocation, progress, EventView::OpenFailed(cause)) == leave(invocation, progress),
        leave(invocation, progress).phase is Opening || leave(invocation, progress).phase
            is Finished,
        output(invocation, progress, EventView::OpenFailed(cause)) is Diagnostic,
{
}

/// A run fails only by a failure to read the source that it is reading.
pub proof fn lemma_fails_by_reading(invocation: Invocation, progress: Progress, event: EventView)
    requires
        !(progress.phase is Failed),
        next(invocation, progress, event).phase is Failed,
    ensures
        progress.phase is Reading,
        event is ReadFailed,
{
}

/// A run that is over stays as it is, and writes nothing more.
pub proof fn lemma_over_is_over(invocation: Invocation, progress: Progress, event: EventView)
    requires
        progress.phase is Finished || progress.phase is Failed,
    ensures
        next(invocation, progress, event) == progress,
        output(invocation, progress, event) is Nothing,
{
}

/// Lines and records are written only for what was read, one for one, and
/// reading on does not move the run.
pub proof fn lemma_one_for_one(invocation: Invocation, progress: Progress, event: EventView)
    requires
        output(invocation, progress, event) is Line || output(invocation, progress, event)
            is Record,
    ensures
        progress.phase is Reading,
        event is Line || event is Record,
        next(invocation, progress, event) == progress,
{
}

/// Whether `name` stands for standard input.
pub fn is_stdin(name: &str) -> (res: bool)
    ensures
        res == (source_of(name@) is Stdin),
{
    let res = name.unicode_len() == 1 && name.get_char(0) == '-';
    proof {
        reveal_strlit("-");
        if res {
            assert(name@ =~= STDIN_NAME@);
        }
    }
    res
}

/// The byte that delimits fields.
pub fn delimiter_to_byte(delimiter: char) -> (byte: u8)
    ensures
        byte == delimiter_byte(delimiter),
{
    (delimiter as u32 % 256) as u8
}

/// One invocation under way: what was asked for, and how far it has come.
#[derive(Debug)]
pub struct Run {
    cli: Cli,
    position: usize,
    phase: Phase,
}

impl Run {
    /// What was asked for.
    pub closed spec fn invocation(&self) -> Invocation {
        self.cli@
    }

    /// How far the run has come.
    pub closed spec fn progress(&self) -> Progress {
        Progress { position: self.position as nat, phase: self.phase }
    }

    #[verifier::type_invariant]
    spec fn well_formed(&self) -> bool {
        &&& self.cli@.valid()
        &&& in_order(self.cli@, self.progress())
    }

    /// A run of `cli`, at its beginning.
    pub fn new(cli: Cli) -> (run: Run)
        ensures
            run.invocation() == cli@,
            run.progress() == begin(cli@),
    {
        let phase = if cli.files().len() == 0 {
            Phase::Finished
        } else {
            Phase::Opening
        };
        proof {
            use_type_invariant(&cli);
        }
        Run { cli, position: 0, phase }
    }

    /// The phase of the run.
    pub fn phase(&self) -> (phase: Phase)
        ensures
            phase == self.progress().phase,
    {
        self.phase
    }

    /// The index of the current source among the sources.
    pub fn position(&self) -> (position: usize)
        ensures
            position == self.progress().position,
            in_order(self.invocation(), self.progress()),
    {
        proof {
            use_type_invariant(self);
        }
        self.position
    }

    /// What the caller is to do next.
    pub fn request(&self) -> (request: Request)
        ensures
            request@ == pending(self.invocation(), self.progress()),
    {
        proof {
            use_type_invariant(self);
        }
        match self.phase {
            Phase::Opening => {
                let names = self.cli.files();
                let name = &names[self.position];
                if is_stdin(name.as_str()) {
                    Request::Open(Source::Stdin)
                } else {
                    Request::Open(Source::File(name.clone()))
                }
            },
            Phase::Reading => match self.cli.extract() {
                ExtractionMode::Fields(_) => Request::ReadRecord(
                    delimiter_to_byte(self.cli.delimiter()),
                ),
                _ => Request::ReadLine,
            },
            Phase::Finished => Request::Finish,
            Phase::Failed => Request::Fail,
        }
    }

    fn leave_source(&mut self)
        requires
            old(self).phase is Opening || old(self).phase is Reading,
        ensures
            final(self).invocation() == old(self).invocation(),
            final(self).progress() == leave(old(self).invocation(), old(self).progress()),
    {
        proof {
            use_type_invariant(&*self);
        }
        let count: usize = self.cli.files().len();
        if self.position + 1 < count {
            self.position = self.position + 1;
            self.phase = Phase::Opening;
        } else {
            self.phase = Phase::Finished;
            self.position = self.position + 1;
        }
    }

    /// Takes what came of the pending request, and gives what is to be
    /// written.
    ///
    /// A line or a record gives its selection and leaves the run where it is.
    /// The end of a source, and a source that cannot be opened, move the run
    /// on to the next source; the latter is reported. A failure to read ends
    /// the run. An event that does not answer the pending request is ignored.
    ///
    /// Bytes selected from a line are read back leniently. Where they are the
    /// encoding of a text, that text is written.
    pub fn step(&mut self, event: Event) -> (out: Output)
        ensures
            final(self).invocation() == old(self).invocation(),
            final(self).progress() == next(
                old(self).invocation(),
                old(self).progress(),
                event@,
            ),
            out@ == output(old(self).invocation(), old(self).progress(), event@),
            faithful(old(self).invocation(), old(self).progress(), event@, out@),
    {
        proof {
            use_type_invariant(&*self);
        }
        match (self.phase, event) {
            (Phase::Opening, Event::Opened) => {
                self.phase = Phase::Reading;
                Output::Nothing
            },
            (Phase::Opening, Event::OpenFailed(cause)) => {
                let names = self.cli.files();
                let name = &names[self.position];
                let mut report = name.clone();
                report.append(": ");
                report.append(cause.as_str());
                self.leave_source();
                Output::Diagnostic(report)
            },
            (Phase::Reading, Event::Line(text)) => match self.cli.extract() {
                ExtractionMode::Chars(list) => Output::Line(
                    extract_chars(text.as_str(), list.as_slice()),
                ),
                ExtractionMode::Bytes(list) => Output::Line(
                    extract_bytes(text.as_str(), list.as_slice()),
                ),
                ExtractionMode::Fields(_) => Output::Nothing,
            },
            (Phase::Reading, Event::Record(record)) => match self.cli.extract() {
                ExtractionMode::Fields(list) => Output::Record(
                    extract_fields(&record, list.as_slice()),
                ),
                _ => Output::Nothing,
            },
            (Phase::Reading, Event::EndOfInput) => {
                self.leave_source();
                Output::Nothing
            },
            (Phase::Reading, Event::ReadFailed) => {
                self.phase = Phase::Failed;
                Output::Nothing
            },
            _ => Output::Nothing,
        }
    }
}

} // verus!
