//! A sharded runner for test executables that follow the googletest console
//! protocol: it discovers the test set, fans the tests out over several shard
//! processes, parses each shard's console output into structured lifecycle
//! events, aggregates the outcomes, and decides on retries of failed tests.
//!
//! This crate holds the verified core: the streaming output parser, the
//! test-listing parser, the aggregation and reconciliation logic, and the
//! retry policy. Process spawning, threads and progress rendering live in the
//! surrounding application, which feeds plain text lines and events through
//! the functions here.
use vstd::prelude::*;

pub mod aggregate;
pub mod discover;
pub mod opt;
pub mod parse;
pub mod sample;
pub mod text;

verus! {

/// Terminal outcome of one test instance. `Passed` and `Failed` are reported
/// by the test process itself; `Aborted` is synthesized when a test's output
/// stream ends without a terminal marker (crash, kill, abrupt exit).
#[derive(Clone, Copy, Debug, PartialEq, Eq, Structural)]
pub enum Status {
    Passed,
    Failed,
    Aborted,
}

impl Status {
    /// A status counts as failed unless the test explicitly passed.
    pub open spec fn spec_is_failed(&self) -> bool {
        match self {
            Status::Failed | Status::Aborted => true,
            Status::Passed => false,
        }
    }

    pub fn is_failed(&self) -> (b: bool)
        ensures
            b == self.spec_is_failed(),
    {
        match self {
            Status::Failed | Status::Aborted => true,
            Status::Passed => false,
        }
    }
}

/// One lifecycle event of a test instance. `Starting` and `Running` carry no
/// log; a `Terminal` event carries the complete captured log of the test,
/// from its start-marker line to its terminal line inclusive (or to the end
/// of the stream, for an aborted test).
#[derive(Clone, Debug)]
pub enum Event {
    Starting,
    Running,
    Terminal { status: Status, log: Vec<String> },
}

/// Mathematical model of an [`Event`]: the log is a sequence of lines, each a
/// sequence of characters.
pub enum EventV {
    Starting,
    Running,
    Terminal { status: Status, log: Seq<Seq<char>> },
}

impl View for Event {
    type V = EventV;

    open spec fn view(&self) -> EventV {
        match self {
            Event::Starting => EventV::Starting,
            Event::Running => EventV::Running,
            Event::Terminal { status, log } => EventV::Terminal {
                status: *status,
                log: log.deep_view(),
            },
        }
    }
}

impl DeepView for Event {
    type V = EventV;

    open spec fn deep_view(&self) -> EventV {
        self.view()
    }
}

/// The externally visible record of one event: which test it concerns, the
/// shard it ran on (absent until the shard executor tags it), and the event
/// itself.
#[derive(Clone, Debug)]
pub struct Test {
    pub testcase: String,
    pub shard: Option<usize>,
    pub event: Event,
}

/// Mathematical model of a [`Test`].
pub struct TestV {
    pub testcase: Seq<char>,
    pub shard: Option<usize>,
    pub event: EventV,
}

impl View for Test {
    type V = TestV;

    open spec fn view(&self) -> TestV {
        TestV { testcase: self.testcase@, shard: self.shard, event: self.event@ }
    }
}

impl DeepView for Test {
    type V = TestV;

    open spec fn deep_view(&self) -> TestV {
        self.view()
    }
}

} // verus!
