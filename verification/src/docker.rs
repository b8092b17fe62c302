//! What the Docker side hands over: container records and log output.
//!
//! The calls against the Docker daemon are made by the driving program. It
//! hands the answers in as plain values: a listing as [`ContainerSummary`]
//! records, a log stream as one `Result` per frame.

use crate::seqs::lemma_values_push;
use vstd::prelude::*;

verus! {

/// A container as the mirror shows it.
#[derive(Debug, PartialEq, Eq)]
pub struct Container {
    pub id: String,
    pub name: String,
    pub image: String,
    pub command: String,
    pub status: String,
}

/// The mathematical value of a [`Container`].
pub ghost struct ContainerView {
    pub id: Seq<char>,
    pub name: Seq<char>,
    pub image: Seq<char>,
    pub command: Seq<char>,
    pub status: Seq<char>,
}

impl View for Container {
    type V = ContainerView;

    open spec fn view(&self) -> ContainerView {
        ContainerView {
            id: self.id@,
            name: self.name@,
            image: self.image@,
            command: self.command@,
            status: self.status@,
        }
    }
}

impl DeepView for Container {
    type V = ContainerView;

    open spec fn deep_view(&self) -> ContainerView {
        self@
    }
}

impl Clone for Container {
    fn clone(&self) -> (copy: Self)
        ensures
            copy@ == self@,
    {
        Container {
            id: self.id.clone(),
            name: self.name.clone(),
            image: self.image.clone(),
            command: self.command.clone(),
            status: self.status.clone(),
        }
    }
}

/// One record of a container listing, as the daemon sent it: every field may
/// be missing.
#[derive(Debug, PartialEq, Eq)]
pub struct ContainerSummary {
    pub id: Option<String>,
    pub names: Option<Vec<String>>,
    pub image: Option<String>,
    pub command: Option<String>,
    pub status: Option<String>,
}

/// The mathematical value of a [`ContainerSummary`].
pub ghost struct ContainerSummaryView {
    pub id: Option<Seq<char>>,
    pub names: Option<Seq<Seq<char>>>,
    pub image: Option<Seq<char>>,
    pub command: Option<Seq<char>>,
    pub status: Option<Seq<char>>,
}

impl ContainerSummaryView {
    /// All five fields are there; of the names, at least one.
    pub open spec fn complete(self) -> bool {
        &&& self.id is Some
        &&& self.names is Some
        &&& self.names->0.len() > 0
        &&& self.image is Some
        &&& self.command is Some
        &&& self.status is Some
    }

    /// The container that a complete record describes. Its name is the first
    /// of the record's names.
    pub open spec fn container(self) -> ContainerView
        recommends
            self.complete(),
    {
        ContainerView {
            id: self.id->0,
            name: self.names->0[0],
            image: self.image->0,
            command: self.command->0,
            status: self.status->0,
        }
    }
}

impl View for ContainerSummary {
    type V = ContainerSummaryView;

    open spec fn view(&self) -> ContainerSummaryView {
        ContainerSummaryView {
            id: self.id.deep_view(),
            names: self.names.deep_view(),
            image: self.image.deep_view(),
            command: self.command.deep_view(),
            status: self.status.deep_view(),
        }
    }
}

impl DeepView for ContainerSummary {
    type V = ContainerSummaryView;

    open spec fn deep_view(&self) -> ContainerSummaryView {
        self@
    }
}

/// The containers of a listing: the complete records, in the listing's order.
pub open spec fn listed(records: Seq<ContainerSummaryView>) -> Seq<ContainerView> {
    records.filter(|r: ContainerSummaryView| r.complete()).map_values(
        |r: ContainerSummaryView| r.container(),
    )
}

/// A listing with one more record lists one more container if that record
/// is complete, and the same containers if it is not.
pub proof fn lemma_listed_push(records: Seq<ContainerSummaryView>, last: ContainerSummaryView)
    ensures
        listed(records.push(last)) == if last.complete() {
            listed(records).push(last.container())
        } else {
            listed(records)
        },
{
    let complete = |r: ContainerSummaryView| r.complete();
    records.lemma_filter_push(last, complete);
    if last.complete() {
        assert(listed(records.push(last)) =~= listed(records).push(last.container()));
    }
}

impl ContainerSummary {
    /// The container that the record describes, if the record is complete:
    /// all five fields are there and, of the names, at least one.
    pub fn container(&self) -> (found: Option<Container>)
        ensures
            found is Some <==> self@.complete(),
            found matches Some(c) ==> c@ == self@.container(),
    {
        match (&self.id, &self.names, &self.image, &self.command, &self.status) {
            (Some(id), Some(names), Some(image), Some(command), Some(status)) => {
                if names.len() == 0 {
                    None
                } else {
                    Some(
                        Container {
                            id: id.clone(),
                            name: names[0].clone(),
                            image: image.clone(),
                            command: command.clone(),
                            status: status.clone(),
                        },
                    )
                }
            },
            _ => None,
        }
    }
}

/// Turns a container listing into containers. A record with a missing field
/// is left out; the others keep their order.
pub fn containers(records: &Vec<ContainerSummary>) -> (found: Vec<Container>)
    ensures
        found.deep_view() == listed(records.deep_view()),
{
    let mut found: Vec<Container> = Vec::new();
    let mut i: usize = 0;
    proof {
        reveal(Seq::filter);
        assert(listed(records.deep_view().take(0)) =~= found.deep_view());
    }
    while i < records.len()
        invariant
            i <= records.len(),
            found.deep_view() == listed(records.deep_view().take(i as int)),
        decreases records.len() - i,
    {
        let ghost before = found@;
        proof {
            lemma_listed_push(records.deep_view().take(i as int), records[i as int]@);
            assert(records.deep_view().take(i as int).push(records[i as int]@)
                =~= records.deep_view().take(i + 1));
        }
        match records[i].container() {
            Some(c) => {
                let ghost added = c;
                found.push(c);
                proof {
                    lemma_values_push(before, added);
                }
            },
            None => {},
        }
        i += 1;
    }
    proof {
        assert(records.deep_view().take(records.len() as int) =~= records.deep_view());
    }
    found
}

/// Why a call against the Docker daemon failed.
#[derive(Clone, Copy, Debug, PartialEq, Eq, Structural)]
pub enum SourceError {
    /// The daemon could not be reached.
    Unavailable,
    /// The container asked about is gone.
    NotFound,
}

impl SourceError {
    /// The error that an answer of the daemon with this HTTP status stands
    /// for: 404 says that the container is gone, every other status that the
    /// daemon is of no use for now.
    pub fn from_status(status: u16) -> (e: SourceError)
        ensures
            e == if status == 404 {
                SourceError::NotFound
            } else {
                SourceError::Unavailable
            },
    {
        if status == 404 {
            SourceError::NotFound
        } else {
            SourceError::Unavailable
        }
    }
}

/// One frame of a container's log stream, tagged with the stream it was
/// written to.
#[derive(Debug, PartialEq, Eq)]
pub enum LogOutput {
    StdErr { message: Vec<u8> },
    StdOut { message: Vec<u8> },
    StdIn { message: Vec<u8> },
    Console { message: Vec<u8> },
}

/// The stream that a log frame was written to.
#[derive(Clone, Copy, Debug, PartialEq, Eq, Structural)]
pub enum Stream {
    StdErr,
    StdOut,
    StdIn,
    Console,
}

/// The mathematical value of a [`LogOutput`].
pub ghost struct LogOutputView {
    pub stream: Stream,
    pub message: Seq<u8>,
}

impl View for LogOutput {
    type V = LogOutputView;

    open spec fn view(&self) -> LogOutputView {
        match *self {
            LogOutput::StdErr { message } => LogOutputView { stream: Stream::StdErr, message: message@ },
            LogOutput::StdOut { message } => LogOutputView { stream: Stream::StdOut, message: message@ },
            LogOutput::StdIn { message } => LogOutputView { stream: Stream::StdIn, message: message@ },
            LogOutput::Console { message } => LogOutputView {
                stream: Stream::Console,
                message: message@,
            },
        }
    }
}

impl DeepView for LogOutput {
    type V = LogOutputView;

    open spec fn deep_view(&self) -> LogOutputView {
        self@
    }
}

impl LogOutput {
    /// The frame's bytes, whatever its stream.
    pub fn message(&self) -> (bytes: &Vec<u8>)
        ensures
            bytes@ == self@.message,
    {
        match self {
            LogOutput::StdErr { message } => message,
            LogOutput::StdOut { message } => message,
            LogOutput::StdIn { message } => message,
            LogOutput::Console { message } => message,
        }
    }

    /// The stream that the frame was written to.
    pub fn stream(&self) -> (stream: Stream)
        ensures
            stream == self@.stream,
    {
        match self {
            LogOutput::StdErr { .. } => Stream::StdErr,
            LogOutput::StdOut { .. } => Stream::StdOut,
            LogOutput::StdIn { .. } => Stream::StdIn,
            LogOutput::Console { .. } => Stream::Console,
        }
    }
}

impl Clone for LogOutput {
    fn clone(&self) -> (copy: Self)
        ensures
            copy@ == self@,
    {
        match self {
            LogOutput::StdErr { message } => LogOutput::StdErr { message: message.clone() },
            LogOutput::StdOut { message } => LogOutput::StdOut { message: message.clone() },
            LogOutput::StdIn { message } => LogOutput::StdIn { message: message.clone() },
            LogOutput::Console { message } => LogOutput::Console { message: message.clone() },
        }
    }
}

/// The frames of a log stream that arrived: the `Ok` items, in the stream's
/// order.
pub open spec fn received(frames: Seq<Result<LogOutput, SourceError>>) -> Seq<LogOutputView> {
    frames.filter(|f: Result<LogOutput, SourceError>| f is Ok).map_values(
        |f: Result<LogOutput, SourceError>| f->Ok_0@,
    )
}

/// A stream with one more item has one more frame if that item is `Ok`,
/// and the same frames if it is not.
pub proof fn lemma_received_push(
    frames: Seq<Result<LogOutput, SourceError>>,
    last: Result<LogOutput, SourceError>,
)
    ensures
        received(frames.push(last)) == if last is Ok {
            received(frames).push(last->Ok_0@)
        } else {
            received(frames)
        },
{
    let arrived = |f: Result<LogOutput, SourceError>| f is Ok;
    frames.lemma_filter_push(last, arrived);
    if last is Ok {
        assert(received(frames.push(last)) =~= received(frames).push(last->Ok_0@));
    }
}

/// Collects a container's log output from the items of its log stream. An
/// item that failed is left out, and the frames that arrived keep their
/// order: a failure on the way costs frames, never the container.
pub fn logs(frames: &Vec<Result<LogOutput, SourceError>>) -> (output: Vec<LogOutput>)
    ensures
        output.deep_view() == received(frames@),
{
    let mut output: Vec<LogOutput> = Vec::new();
    let mut i: usize = 0;
    proof {
        reveal(Seq::filter);
        assert(received(frames@.take(0)) =~= output.deep_view());
    }
    while i < frames.len()
        invariant
            i <= frames.len(),
            output.deep_view() == received(frames@.take(i as int)),
        decreases frames.len() - i,
    {
        let ghost before = output@;
        proof {
            lemma_received_push(frames@.take(i as int), frames[i as int]);
            assert(frames@.take(i as int).push(frames[i as int]) =~= frames@.take(i + 1));
        }
        match &frames[i] {
            Ok(frame) => {
                let copy = frame.clone();
                let ghost added = copy;
                output.push(copy);
                proof {
                    lemma_values_push(before, added);
                }
            },
            Err(_) => {},
        }
        i += 1;
    }
    proof {
        assert(frames@.take(frames.len() as int) =~= frames@);
    }
    output
}

} // verus!
