use gtest_runner::parse::{ParseError, Parser};
use gtest_runner::{Event, Status, Test};
use itertools::{join, Itertools};
use std::iter::FromIterator;

const OUTPUT: &str = r#"Note: Google Test filter = *NOPE*-
[==========] Running 3 tests from 1 test case.
[----------] Global test environment set-up.
[----------] 3 tests from NOPE
[ RUN      ] NOPE.NOPE1
[       OK ] NOPE.NOPE1 (0 ms)
[ RUN      ] NOPE.NOPE2
../3rdparty/libprocess/src/tests/future_tests.cpp:886: Failure
Value of: false
  Actual: false
Expected: true
[  FAILED  ] NOPE.NOPE2 (0 ms)
[ RUN      ] NOPE.NOPE3
WARNING: Logging before InitGoogleLogging() is written to STDERR
F0303 10:01:07.804791 2590810944 future_tests.cpp:892] Check failed: false
*** Check failure stack trace: ***
*** Aborted at 1520067667 (unix time) try "date -d @1520067667" if you are using GNU date ***
PC: @     0x7fff617c3e3e __pthread_kill
*** SIGABRT (@0x7fff617c3e3e) received by PID 8086 (TID 0x7fff9a6ca340) stack trace: ***
    @     0x7fff618f5f5a _sigtramp
    @     0x7ffee1d4c228 (unknown)
    @     0x7fff61720312 abort
    @        0x10ebe76b9 google::logging_fail()
    @        0x10ebe76aa google::LogMessage::Fail()
    @        0x10ebe67ba google::LogMessage::SendToLog()
    @        0x10ebe6dec google::LogMessage::Flush()
    @        0x10ebeafdf google::LogMessageFatal::~LogMessageFatal()
    @        0x10ebe7a49 google::LogMessageFatal::~LogMessageFatal()
    @        0x10df7db11 NOPE_NOPE3_Test::TestBody()
    @        0x10e217b24 testing::internal::HandleExceptionsInMethodIfSupported<>()
    @        0x10e217a6d testing::Test::Run()
    @        0x10e218ea0 testing::TestInfo::Run()
    @        0x10e219827 testing::TestCase::Run()
    @        0x10e223197 testing::internal::UnitTestImpl::RunAllTests()
    @        0x10e222ab4 testing::internal::HandleExceptionsInMethodIfSupported<>()
    @        0x10e222a10 testing::UnitTest::Run()
    @        0x10deb7551 main
    @     0x7fff61674115 start
    @                0x2 (unknown)"#;

const ABORTED_LOG: &str = r#"[ RUN      ] NOPE.NOPE3
WARNING: Logging before InitGoogleLogging() is written to STDERR
F0303 10:01:07.804791 2590810944 future_tests.cpp:892] Check failed: false
*** Check failure stack trace: ***
*** Aborted at 1520067667 (unix time) try "date -d @1520067667" if you are using GNU date ***
PC: @     0x7fff617c3e3e __pthread_kill
*** SIGABRT (@0x7fff617c3e3e) received by PID 8086 (TID 0x7fff9a6ca340) stack trace: ***
    @     0x7fff618f5f5a _sigtramp
    @     0x7ffee1d4c228 (unknown)
    @     0x7fff61720312 abort
    @        0x10ebe76b9 google::logging_fail()
    @        0x10ebe76aa google::LogMessage::Fail()
    @        0x10ebe67ba google::LogMessage::SendToLog()
    @        0x10ebe6dec google::LogMessage::Flush()
    @        0x10ebeafdf google::LogMessageFatal::~LogMessageFatal()
    @        0x10ebe7a49 google::LogMessageFatal::~LogMessageFatal()
    @        0x10df7db11 NOPE_NOPE3_Test::TestBody()
    @        0x10e217b24 testing::internal::HandleExceptionsInMethodIfSupported<>()
    @        0x10e217a6d testing::Test::Run()
    @        0x10e218ea0 testing::TestInfo::Run()
    @        0x10e219827 testing::TestCase::Run()
    @        0x10e223197 testing::internal::UnitTestImpl::RunAllTests()
    @        0x10e222ab4 testing::internal::HandleExceptionsInMethodIfSupported<>()
    @        0x10e222a10 testing::UnitTest::Run()
    @        0x10deb7551 main
    @     0x7fff61674115 start
    @                0x2 (unknown)"#;

fn parse_output(output: &str) -> Vec<Test> {
    let lines: Vec<String> = output.split('\n').map(String::from).collect();
    gtest_runner::parse::parse_lines(&lines).unwrap()
}

#[test]
fn gtest_test_parse_one() {
    assert_eq!(
        vec!["NOPE.NOPE1", "NOPE.NOPE2", "NOPE.NOPE3"],
        Vec::from_iter(
            parse_output(OUTPUT)
                .into_iter()
                .filter(|result| matches!(result.event, Event::Starting))
                .map(|result| result.testcase)
                .dedup(),
        )
    );

    assert_eq!(
        vec!["NOPE.NOPE1"],
        Vec::from_iter(
            parse_output(OUTPUT)
                .into_iter()
                .filter(|result| match &result.event {
                    Event::Terminal { status, .. } => *status == Status::Passed,
                    _ => false,
                })
                .map(|result| result.testcase),
        )
    );

    assert_eq!(
        vec!["NOPE.NOPE2"],
        Vec::from_iter(
            parse_output(OUTPUT)
                .into_iter()
                .filter(|result| match &result.event {
                    Event::Terminal { status, .. } => *status == Status::Failed,
                    _ => false,
                })
                .map(|result| result.testcase),
        )
    );

    let aborted = Vec::from_iter(parse_output(OUTPUT).into_iter().filter(
        |result| match &result.event {
            Event::Terminal { status, .. } => *status == Status::Aborted,
            _ => false,
        },
    ));
    assert_eq!(1, aborted.len());
    assert_eq!(
        vec!["NOPE.NOPE3"],
        aborted
            .iter()
            .map(|result| &result.testcase)
            .collect::<Vec<_>>()
    );
    assert_eq!(
        ABORTED_LOG,
        &match &aborted[0].event {
            Event::Terminal { log, .. } => log.iter().join("\n"),
            _ => unreachable!(),
        }
    );
}

#[test]
fn parse_test_parse_one() {
    let starting: Vec<String> = parse_output(OUTPUT)
        .into_iter()
        .filter(|result| match result.event {
            Event::Starting => true,
            _ => false,
        })
        .map(|result| result.testcase)
        .dedup()
        .collect();
    assert_eq!(vec!["NOPE.NOPE1", "NOPE.NOPE2", "NOPE.NOPE3"], starting);

    let ok: Vec<String> = parse_output(OUTPUT)
        .into_iter()
        .filter(|result| match &result.event {
            Event::Terminal { status, .. } => *status == Status::Passed,
            _ => false,
        })
        .map(|result| result.testcase)
        .collect();
    assert_eq!(vec!["NOPE.NOPE1"], ok);

    let failed: Vec<String> = parse_output(OUTPUT)
        .into_iter()
        .filter(|result| match &result.event {
            Event::Terminal { status, .. } => *status == Status::Failed,
            _ => false,
        })
        .map(|result| result.testcase)
        .collect();
    assert_eq!(vec!["NOPE.NOPE2"], failed);

    let aborted: Vec<Test> = parse_output(OUTPUT)
        .into_iter()
        .filter(|result| match &result.event {
            Event::Terminal { status, .. } => *status == Status::Aborted,
            _ => false,
        })
        .collect();
    assert_eq!(1, aborted.len());
    assert_eq!(
        vec!["NOPE.NOPE3"],
        aborted
            .iter()
            .map(|result| &result.testcase)
            .collect::<Vec<_>>()
    );
    assert_eq!(
        ABORTED_LOG,
        aborted
            .iter()
            .map(|result| match &result.event {
                Event::Terminal { log, .. } => join(log, "\n"),
                _ => unreachable!(),
            })
            .next()
            .unwrap()
    );
}

#[test]
fn mod_test_parse_one() {
    let events = parse_output(OUTPUT);

    assert_eq!(
        vec!["NOPE.NOPE1", "NOPE.NOPE2", "NOPE.NOPE3"],
        Vec::from_iter(
            events
                .iter()
                .filter(|result| matches!(result.event, Event::Starting))
                .map(|result| result.testcase.clone())
                .dedup(),
        )
    );

    assert_eq!(
        vec!["NOPE.NOPE1"],
        Vec::from_iter(
            events
                .iter()
                .filter(|result| match &result.event {
                    Event::Terminal { status, .. } => *status == Status::Passed,
                    _ => false,
                })
                .map(|result| result.testcase.clone()),
        )
    );

    assert_eq!(
        vec!["NOPE.NOPE2"],
        Vec::from_iter(
            events
                .iter()
                .filter(|result| match &result.event {
                    Event::Terminal { status, .. } => *status == Status::Failed,
                    _ => false,
                })
                .map(|result| result.testcase.clone()),
        )
    );

    let aborted: Vec<&Test> = events
        .iter()
        .filter(|result| match &result.event {
            Event::Terminal { status, .. } => *status == Status::Aborted,
            _ => false,
        })
        .collect();
    assert_eq!(1, aborted.len());
    assert_eq!(
        vec!["NOPE.NOPE3"],
        aborted
            .iter()
            .map(|result| &result.testcase)
            .collect::<Vec<_>>()
    );
    assert_eq!(
        ABORTED_LOG,
        &match &aborted[0].event {
            Event::Terminal { log, .. } => log.iter().join("\n"),
            _ => unreachable!(),
        }
    );
}

#[test]
fn parser_strips_ansi_codes_for_matching_but_logs_raw_lines() {
    let mut parser = Parser::new();
    let start = "\u{1b}[32m[ RUN      ] Suite.Color\u{1b}[0m";
    let ok = "\u{1b}[32m[       OK ] Suite.Color (3 ms)\u{1b}[0m";

    let events = parser.parse(start).unwrap();
    assert_eq!(1, events.len());
    assert_eq!("Suite.Color", events[0].testcase);
    assert!(matches!(events[0].event, Event::Starting));

    let events = parser.parse(ok).unwrap();
    assert_eq!(1, events.len());
    match &events[0].event {
        Event::Terminal { status, log } => {
            assert_eq!(*status, Status::Passed);
            // the captured log keeps the raw, still-colored lines
            assert_eq!(vec![start.to_string(), ok.to_string()], *log);
        }
        _ => panic!("expected a terminal event"),
    }
    assert!(parser.finalize().is_none());
}

#[test]
fn parser_reports_malformed_start_marker() {
    let mut parser = Parser::new();
    let err: ParseError = parser.parse("[ RUN      ] ").unwrap_err();
    assert_eq!("[ RUN      ] ", err.line);
    // a start marker whose rest is only whitespace is just as malformed
    let err = parser.parse("[ RUN      ]    ").unwrap_err();
    assert_eq!("[ RUN      ]    ", err.line);
    // the parser state is unchanged: a well-formed start still opens a test
    let events = parser.parse("[ RUN      ] Suite.A").unwrap();
    assert_eq!("Suite.A", events[0].testcase);
}

#[test]
fn terminal_marker_needs_timing_suffix() {
    let mut parser = Parser::new();
    parser.parse("[ RUN      ] Suite.A").unwrap();
    // no "(N unit)" suffix: a continuation line, not a terminal marker
    let events = parser.parse("[       OK ] Suite.A").unwrap();
    assert_eq!(1, events.len());
    assert!(matches!(events[0].event, Event::Running));
    // with the suffix the test completes; its log holds all three lines
    let events = parser.parse("[       OK ] Suite.A (0 ms) trailing").unwrap();
    match &events[0].event {
        Event::Terminal { status, log } => {
            assert_eq!(*status, Status::Passed);
            assert_eq!(3, log.len());
        }
        _ => panic!("expected a terminal event"),
    }
    assert!(parser.finalize().is_none());
}

#[test]
fn start_marker_while_active_aborts_previous_test() {
    let mut parser = Parser::new();
    parser.parse("[ RUN      ] Suite.A").unwrap();
    let events = parser.parse("[ RUN      ] Suite.B").unwrap();
    assert_eq!(2, events.len());
    assert_eq!("Suite.A", events[0].testcase);
    match &events[0].event {
        Event::Terminal { status, log } => {
            assert_eq!(*status, Status::Aborted);
            assert_eq!(vec!["[ RUN      ] Suite.A".to_string()], *log);
        }
        _ => panic!("expected a terminal event"),
    }
    assert_eq!("Suite.B", events[1].testcase);
    assert!(matches!(events[1].event, Event::Starting));
}

#[test]
fn end_of_stream_aborts_active_test() {
    let mut parser = Parser::new();
    parser.parse("banner text is ignored while idle").unwrap();
    parser.parse("[ RUN      ] Suite.Crash").unwrap();
    parser.parse("segfault backtrace line").unwrap();
    let aborted = parser.finalize().unwrap();
    assert_eq!("Suite.Crash", aborted.testcase);
    match &aborted.event {
        Event::Terminal { status, log } => {
            assert_eq!(*status, Status::Aborted);
            assert_eq!(
                vec![
                    "[ RUN      ] Suite.Crash".to_string(),
                    "segfault backtrace line".to_string(),
                ],
                *log
            );
        }
        _ => panic!("expected a terminal event"),
    }
    // a second finalization has nothing left to report
    assert!(parser.finalize().is_none());
}

#[test]
fn failed_marker_with_digits_parses() {
    let lines: Vec<String> = vec![
        "[ RUN      ] Suite.Slow".to_string(),
        "[  FAILED  ] Suite.Slow (1234 ms)".to_string(),
    ];
    let events = gtest_runner::parse::parse_lines(&lines).unwrap();
    assert_eq!(2, events.len());
    match &events[1].event {
        Event::Terminal { status, .. } => assert_eq!(*status, Status::Failed),
        _ => panic!("expected a terminal event"),
    }
}
