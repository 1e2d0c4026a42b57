//! The streaming output parser: a two-state machine that consumes a test
//! process's console output line by line and produces structured lifecycle
//! events ([`Test`] records).
//!
//! Line classification works on the line with ANSI escape sequences stripped;
//! the captured log keeps the raw lines. A line is a start marker if it
//! begins with `"[ RUN      ] "`; it is a pass or fail marker if it begins
//! with `"[       OK ] "` or `"[  FAILED  ] "` and further along carries a
//! timing suffix of the shape `" (<digits> <unit>)"`.
use vstd::prelude::*;

use crate::text::{extract_token, first_token};
use crate::{Event, EventV, Status, Test, TestV};

verus! {

/// The stripped form of a console line: what remains after ANSI escape
/// sequences are removed. Only `strip_line` gives this name a value.
pub uninterp spec fn strip_ansi(s: Seq<char>) -> Seq<char>;

/// Relies on `console::strip_ansi_codes`: it removes ANSI escape sequences
/// from the line, and its result depends on the input characters alone.
#[verifier::external_body]
fn strip_line(line: &str) -> (r: String)
    ensures
        r@ == strip_ansi(line@),
{
    console::strip_ansi_codes(line).into_owned()
}

/// The fixed 13-character prefix of a start-marker line.
pub open spec fn run_prefix() -> Seq<char> {
    seq!['[', ' ', 'R', 'U', 'N', ' ', ' ', ' ', ' ', ' ', ' ', ']', ' ']
}

/// The fixed 13-character prefix of a pass-marker line.
pub open spec fn ok_prefix() -> Seq<char> {
    seq!['[', ' ', ' ', ' ', ' ', ' ', ' ', ' ', 'O', 'K', ' ', ']', ' ']
}

/// The fixed 13-character prefix of a fail-marker line.
pub open spec fn failed_prefix() -> Seq<char> {
    seq!['[', ' ', ' ', 'F', 'A', 'I', 'L', 'E', 'D', ' ', ' ', ']', ' ']
}

pub open spec fn is_digit(c: char) -> bool {
    '0' <= c && c <= '9'
}

fn digit(c: char) -> (b: bool)
    ensures
        b == is_digit(c),
{
    '0' <= c && c <= '9'
}

/// The timing suffix of a terminal marker, ignoring the no-newline gap to the
/// prefix: at offset `i` (after the 13-character prefix) a space and an
/// opening parenthesis, then only digits up to the space at `j`, then a
/// closing parenthesis at `m` with no newline in between.
pub open spec fn timing_local(s: Seq<char>, i: int, j: int, m: int) -> bool {
    &&& 13 <= i
    &&& i + 2 <= j
    &&& j < m
    &&& m < s.len()
    &&& s[i] == ' '
    &&& s[i + 1] == '('
    &&& (forall|k: int| i + 2 <= k < j ==> is_digit(#[trigger] s[k]))
    &&& s[j] == ' '
    &&& s[m] == ')'
    &&& (forall|k: int| j < k < m ==> #[trigger] s[k] != '\n')
}

/// A full timing-suffix occurrence: `timing_local` plus a newline-free gap
/// between the prefix and the suffix (a newline never occurs in a console
/// line, but the classification is exact for any character sequence).
pub open spec fn timing_at(s: Seq<char>, i: int, j: int, m: int) -> bool {
    &&& timing_local(s, i, j, m)
    &&& (forall|k: int| 13 <= k < i ==> #[trigger] s[k] != '\n')
}

pub open spec fn has_timing(s: Seq<char>) -> bool {
    exists|i: int, j: int, m: int| timing_at(s, i, j, m)
}

/// A start-marker line: the run prefix starts the line.
pub open spec fn is_start_marker(s: Seq<char>) -> bool {
    run_prefix().is_prefix_of(s)
}

/// A pass-marker line: the pass prefix starts the line and a timing suffix
/// follows.
pub open spec fn is_ok_marker(s: Seq<char>) -> bool {
    ok_prefix().is_prefix_of(s) && has_timing(s)
}

/// A fail-marker line: the fail prefix starts the line and a timing suffix
/// follows.
pub open spec fn is_failed_marker(s: Seq<char>) -> bool {
    failed_prefix().is_prefix_of(s) && has_timing(s)
}

fn run_prefix_chars() -> (v: Vec<char>)
    ensures
        v@ == run_prefix(),
{
    let mut v: Vec<char> = Vec::new();
    v.push('[');
    v.push(' ');
    v.push('R');
    v.push('U');
    v.push('N');
    v.push(' ');
    v.push(' ');
    v.push(' ');
    v.push(' ');
    v.push(' ');
    v.push(' ');
    v.push(']');
    v.push(' ');
    proof {
        assert(v@ =~= run_prefix());
    }
    v
}

fn ok_prefix_chars() -> (v: Vec<char>)
    ensures
        v@ == ok_prefix(),
{
    let mut v: Vec<char> = Vec::new();
    v.push('[');
    v.push(' ');
    v.push(' ');
    v.push(' ');
    v.push(' ');
    v.push(' ');
    v.push(' ');
    v.push(' ');
    v.push('O');
    v.push('K');
    v.push(' ');
    v.push(']');
    v.push(' ');
    proof {
        assert(v@ =~= ok_prefix());
    }
    v
}

fn failed_prefix_chars() -> (v: Vec<char>)
    ensures
        v@ == failed_prefix(),
{
    let mut v: Vec<char> = Vec::new();
    v.push('[');
    v.push(' ');
    v.push(' ');
    v.push('F');
    v.push('A');
    v.push('I');
    v.push('L');
    v.push('E');
    v.push('D');
    v.push(' ');
    v.push(' ');
    v.push(']');
    v.push(' ');
    proof {
        assert(v@ =~= failed_prefix());
    }
    v
}

/// Whether the characters of `p` start the string `s`.
fn has_prefix(s: &str, p: &Vec<char>) -> (b: bool)
    ensures
        b == p@.is_prefix_of(s@),
{
    let n = s.unicode_len();
    if n < p.len() {
        return false;
    }
    let mut i: usize = 0;
    while i < p.len()
        invariant
            0 <= i <= p@.len() <= s@.len(),
            n == s@.len(),
            forall|k: int| 0 <= k < i ==> s@[k] == p@[k],
        decreases p@.len() - i,
    {
        if s.get_char(i) != p[i] {
            proof {
                assert(s@.subrange(0, p@.len() as int)[i as int] == s@[i as int]);
            }
            return false;
        }
        i = i + 1;
    }
    proof {
        assert(p@ =~= s@.subrange(0, p@.len() as int));
    }
    true
}

/// Whether a timing suffix occurs at offset `i`, ignoring the gap condition
/// before `i`.
fn timing_local_at(s: &str, i: usize) -> (b: bool)
    requires
        13 <= i < s@.len(),
    ensures
        b == exists|j: int, m: int| timing_local(s@, i as int, j, m),
{
    let n = s.unicode_len();
    if s.get_char(i) != ' ' {
        return false;
    }
    if i + 1 >= n {
        return false;
    }
    if s.get_char(i + 1) != '(' {
        return false;
    }
    let mut j = i + 2;
    while j < n && digit(s.get_char(j))
        invariant
            i + 2 <= j <= n,
            n == s@.len(),
            forall|k: int| i + 2 <= k < j ==> is_digit(#[trigger] s@[k]),
        decreases n - j,
    {
        j = j + 1;
    }
    // j is the end of the maximal digit run after the opening parenthesis;
    // the space demanded by the suffix can only stand exactly there.
    if j == n {
        proof {
            assert forall|j2: int, m2: int| !timing_local(s@, i as int, j2, m2) by {
                if timing_local(s@, i as int, j2, m2) {
                    assert(is_digit(s@[j2]));
                }
            }
        }
        return false;
    }
    if s.get_char(j) != ' ' {
        proof {
            assert forall|j2: int, m2: int| !timing_local(s@, i as int, j2, m2) by {
                if timing_local(s@, i as int, j2, m2) {
                    if j2 < j {
                        assert(is_digit(s@[j2]));
                    } else if j2 > j {
                        assert(is_digit(s@[j as int]));
                    }
                }
            }
        }
        return false;
    }
    let mut m = j + 1;
    let mut newline = false;
    while m < n && !newline
        invariant
            j + 1 <= m <= n,
            n == s@.len(),
            forall|k: int| j < k < m ==> #[trigger] s@[k] != ')' && s@[k] != '\n',
            newline ==> m < n && s@[m as int] == '\n',
            13 <= i,
            i + 2 <= j < n,
            s@[i as int] == ' ',
            s@[i + 1] == '(',
            forall|k: int| i + 2 <= k < j ==> is_digit(#[trigger] s@[k]),
            s@[j as int] == ' ',
        decreases n - m + (if newline {
            0int
        } else {
            1int
        }),
    {
        let cm = s.get_char(m);
        if cm == ')' {
            proof {
                assert(timing_local(s@, i as int, j as int, m as int));
            }
            return true;
        }
        if cm == '\n' {
            newline = true;
        } else {
            m = m + 1;
        }
    }
    // either the string ended or a newline stands before any closing
    // parenthesis: no suffix can close after j, and no other j can serve
    proof {
        assert forall|j2: int, m2: int| !timing_local(s@, i as int, j2, m2) by {
            if timing_local(s@, i as int, j2, m2) {
                if j2 < j {
                    assert(is_digit(s@[j2]));
                } else if j2 > j {
                    assert(is_digit(s@[j as int]));
                } else {
                    // j2 == j: the closing parenthesis at m2 is unreachable
                    if newline {
                        if m2 < m {
                            assert(s@[m2] != ')');
                        } else if m2 == m {
                            assert(s@[m as int] == '\n');
                        } else {
                            assert(s@[m as int] != '\n');
                        }
                    } else {
                        assert(s@[m2] != ')');
                    }
                }
            }
        }
    }
    false
}

/// A console line together with its ANSI-stripped form. The parser
/// classifies lines by the stripped form and logs the raw form.
pub struct LineV {
    pub raw: Seq<char>,
    pub stripped: Seq<char>,
}

/// The model of a raw line as the parser sees it.
pub open spec fn line_v(raw: Seq<char>) -> LineV {
    LineV { raw, stripped: strip_ansi(raw) }
}

/// The raw lines of a line sequence.
pub open spec fn raws_of(ls: Seq<LineV>) -> Seq<Seq<char>> {
    ls.map_values(|l: LineV| l.raw)
}

/// The models of a sequence of raw lines.
pub open spec fn lines_v(raws: Seq<Seq<char>>) -> Seq<LineV> {
    raws.map_values(|r: Seq<char>| line_v(r))
}

/// Whether any timing suffix occurs in `s` after the 13-character prefix.
fn find_timing(s: &str) -> (b: bool)
    ensures
        b == has_timing(s@),
{
    let n = s.unicode_len();
    let mut i: usize = 13;
    if n < 13 {
        proof {
            assert forall|i2: int, j: int, m: int| !timing_at(s@, i2, j, m) by {}
        }
        return false;
    }
    while i < n
        invariant
            13 <= i <= n,
            n == s@.len(),
            forall|i2: int, j: int, m: int| 13 <= i2 < i ==> !timing_at(s@, i2, j, m),
            forall|k: int| 13 <= k < i ==> #[trigger] s@[k] != '\n',
        decreases n - i,
    {
        if s.get_char(i) == '\n' {
            proof {
                assert forall|i2: int, j: int, m: int| !timing_at(s@, i2, j, m) by {
                    if timing_at(s@, i2, j, m) {
                        if i2 < i {
                        } else if i2 == i {
                            assert(s@[i2] == ' ');
                        } else {
                            assert(s@[i as int] != '\n');
                        }
                    }
                }
            }
            return false;
        }
        if timing_local_at(s, i) {
            proof {
                let (j, m) = choose|j: int, m: int| timing_local(s@, i as int, j, m);
                assert(timing_at(s@, i as int, j, m));
            }
            return true;
        }
        i = i + 1;
    }
    proof {
        assert forall|i2: int, j: int, m: int| !timing_at(s@, i2, j, m) by {
            if timing_at(s@, i2, j, m) {
                assert(13 <= i2 && i2 + 2 <= j && j < m && m < s@.len());
            }
        }
    }
    false
}

/// The test currently being executed, as tracked by the parser: its
/// identifier and the log captured so far.
pub struct ActiveTest {
    pub case: String,
    pub log: Vec<String>,
}

/// Model of an active test.
pub struct ActiveV {
    pub case: Seq<char>,
    pub log: Seq<Seq<char>>,
}

/// Error for a start-marker line that carries no test name after the fixed
/// prefix.
#[derive(Debug)]
pub struct ParseError {
    pub line: String,
}

/// The streaming output parser. It is either idle or tracking one active
/// test; each console line it is fed yields zero, one or two events.
pub struct Parser {
    test: Option<ActiveTest>,
}

impl View for Parser {
    type V = Option<ActiveV>;

    closed spec fn view(&self) -> Option<ActiveV> {
        match self.test {
            Option::Some(a) => Option::Some(ActiveV { case: a.case@, log: a.log.deep_view() }),
            Option::None => Option::None,
        }
    }
}

pub open spec fn starting_event(case: Seq<char>) -> TestV {
    TestV { testcase: case, shard: Option::None, event: EventV::Starting }
}

pub open spec fn running_event(case: Seq<char>) -> TestV {
    TestV { testcase: case, shard: Option::None, event: EventV::Running }
}

pub open spec fn terminal_event(case: Seq<char>, status: Status, log: Seq<Seq<char>>) -> TestV {
    TestV { testcase: case, shard: Option::None, event: EventV::Terminal { status, log } }
}

/// One transition of the parser on one line: the new state and the events
/// emitted, or `None` for a malformed start-marker line (one with no test
/// name after the prefix).
///
/// Idle: a start marker opens a test; any other line is ignored. Active: a
/// pass or fail marker closes the test with the marker's status and the full
/// log, marker line included; a further start marker is not expected by the
/// protocol and closes the test as aborted before opening the new one; any
/// other line is a continuation, growing the log.
pub open spec fn spec_step(st: Option<ActiveV>, l: LineV) -> Option<(Option<ActiveV>, Seq<TestV>)> {
    match st {
        Option::None => {
            if is_start_marker(l.stripped) {
                match first_token(l.stripped.skip(12)) {
                    Option::Some(tok) => Option::Some(
                        (
                            Option::Some(ActiveV { case: tok, log: seq![l.raw] }),
                            seq![starting_event(tok)],
                        ),
                    ),
                    Option::None => Option::None,
                }
            } else {
                Option::Some((Option::None, Seq::empty()))
            }
        },
        Option::Some(a) => {
            if is_ok_marker(l.stripped) {
                Option::Some(
                    (
                        Option::None,
                        seq![terminal_event(a.case, Status::Passed, a.log.push(l.raw))],
                    ),
                )
            } else if is_failed_marker(l.stripped) {
                Option::Some(
                    (
                        Option::None,
                        seq![terminal_event(a.case, Status::Failed, a.log.push(l.raw))],
                    ),
                )
            } else if is_start_marker(l.stripped) {
                match first_token(l.stripped.skip(12)) {
                    Option::Some(tok) => Option::Some(
                        (
                            Option::Some(ActiveV { case: tok, log: seq![l.raw] }),
                            seq![
                                terminal_event(a.case, Status::Aborted, a.log),
                                starting_event(tok),
                            ],
                        ),
                    ),
                    Option::None => Option::None,
                }
            } else {
                Option::Some(
                    (
                        Option::Some(ActiveV { case: a.case, log: a.log.push(l.raw) }),
                        seq![running_event(a.case)],
                    ),
                )
            }
        },
    }
}

/// End-of-stream transition: an active test is closed as aborted with its
/// captured log; an idle parser emits nothing.
pub open spec fn spec_finalize(st: Option<ActiveV>) -> Seq<TestV> {
    match st {
        Option::Some(a) => seq![terminal_event(a.case, Status::Aborted, a.log)],
        Option::None => Seq::empty(),
    }
}

impl Parser {
    /// A fresh, idle parser.
    pub fn new() -> (p: Parser)
        ensures
            p@ is None,
    {
        Parser { test: None }
    }

    /// Feed one console line; the events it yields are exactly those of
    /// [`spec_step`] on the line's model.
    pub fn parse(&mut self, line: &str) -> (r: Result<Vec<Test>, ParseError>)
        ensures
            ({
                let step = spec_step(old(self)@, line_v(line@));
                match r {
                    Result::Ok(events) => step matches Some(p) && final(self)@ == p.0
                        && events.deep_view() == p.1,
                    Result::Err(e) => step is None && final(self)@ == old(self)@ && e.line@
                        == line@,
                }
            }),
    {
        let stripped = strip_line(line);
        let s = stripped.as_str();
        let runp = run_prefix_chars();
        let active = self.test.take();
        match active {
            None => {
                if has_prefix(s, &runp) {
                    match extract_token(s, 12) {
                        Some(tok) => {
                            let mut log: Vec<String> = Vec::new();
                            log.push(String::from_str(line));
                            self.test = Some(ActiveTest { case: tok.clone(), log });
                            let mut events: Vec<Test> = Vec::new();
                            events.push(
                                Test { testcase: tok, shard: None, event: Event::Starting },
                            );
                            proof {
                                let step = spec_step(old(self)@, line_v(line@));
                                assert(self@ matches Some(a) && a.log =~= seq![line@]);
                                assert(events.deep_view() =~= step->Some_0.1);
                            }
                            Ok(events)
                        },
                        None => Err(ParseError { line: String::from_str(line) }),
                    }
                } else {
                    let events: Vec<Test> = Vec::new();
                    proof {
                        assert(events.deep_view() =~= Seq::<TestV>::empty());
                    }
                    Ok(events)
                }
            },
            Some(mut a) => {
                let okp = ok_prefix_chars();
                let failp = failed_prefix_chars();
                let ghost a0 = old(self)@->Some_0;
                if has_prefix(s, &okp) && find_timing(s) {
                    a.log.push(String::from_str(line));
                    let mut events: Vec<Test> = Vec::new();
                    events.push(
                        Test {
                            testcase: a.case,
                            shard: None,
                            event: Event::Terminal { status: Status::Passed, log: a.log },
                        },
                    );
                    proof {
                        assert(events.deep_view()[0].event->log =~= a0.log.push(line@));
                        assert(events.deep_view() =~= seq![
                            terminal_event(a0.case, Status::Passed, a0.log.push(line@)),
                        ]);
                    }
                    Ok(events)
                } else if has_prefix(s, &failp) && find_timing(s) {
                    a.log.push(String::from_str(line));
                    let mut events: Vec<Test> = Vec::new();
                    events.push(
                        Test {
                            testcase: a.case,
                            shard: None,
                            event: Event::Terminal { status: Status::Failed, log: a.log },
                        },
                    );
                    proof {
                        assert(events.deep_view()[0].event->log =~= a0.log.push(line@));
                        assert(events.deep_view() =~= seq![
                            terminal_event(a0.case, Status::Failed, a0.log.push(line@)),
                        ]);
                    }
                    Ok(events)
                } else if has_prefix(s, &runp) {
                    match extract_token(s, 12) {
                        Some(tok) => {
                            let mut events: Vec<Test> = Vec::new();
                            events.push(
                                Test {
                                    testcase: a.case,
                                    shard: None,
                                    event: Event::Terminal {
                                        status: Status::Aborted,
                                        log: a.log,
                                    },
                                },
                            );
                            let mut log: Vec<String> = Vec::new();
                            log.push(String::from_str(line));
                            self.test = Some(ActiveTest { case: tok.clone(), log });
                            events.push(
                                Test { testcase: tok, shard: None, event: Event::Starting },
                            );
                            proof {
                                let step = spec_step(old(self)@, line_v(line@));
                                assert(self@ matches Some(n) && n.log =~= seq![line@]);
                                assert(events.deep_view() =~= step->Some_0.1);
                            }
                            Ok(events)
                        },
                        None => {
                            self.test = Some(a);
                            proof {
                                assert(self@->Some_0.log =~= a0.log);
                                assert(self@ == old(self)@);
                            }
                            Err(ParseError { line: String::from_str(line) })
                        },
                    }
                } else {
                    a.log.push(String::from_str(line));
                    let mut events: Vec<Test> = Vec::new();
                    events.push(
                        Test { testcase: a.case.clone(), shard: None, event: Event::Running },
                    );
                    self.test = Some(a);
                    proof {
                        assert(self@->Some_0.log =~= a0.log.push(line@));
                        assert(self@ == spec_step(old(self)@, line_v(line@))->Some_0.0);
                        assert(events.deep_view() =~= seq![running_event(a0.case)]);
                    }
                    Ok(events)
                }
            },
        }
    }

    /// End of the input stream: an active test is reported as aborted with
    /// the log captured so far.
    pub fn finalize(&mut self) -> (r: Option<Test>)
        ensures
            final(self)@ is None,
            match r {
                Some(t) => old(self)@ matches Some(a) && t@ == terminal_event(
                    a.case,
                    Status::Aborted,
                    a.log,
                ),
                None => old(self)@ is None,
            },
    {
        let active = self.test.take();
        match active {
            Some(a) => Some(
                Test {
                    testcase: a.case,
                    shard: None,
                    event: Event::Terminal { status: Status::Aborted, log: a.log },
                },
            ),
            None => None,
        }
    }
}

/// Running the parser over a whole sequence of lines from a given state: the
/// final state and all events emitted, or `None` if some line is a malformed
/// start marker.
pub open spec fn spec_run(st: Option<ActiveV>, ls: Seq<LineV>) -> Option<
    (Option<ActiveV>, Seq<TestV>),
>
    decreases ls.len(),
{
    if ls.len() == 0 {
        Option::Some((st, Seq::empty()))
    } else {
        match spec_step(st, ls[0]) {
            Option::Some(p) => match spec_run(p.0, ls.drop_first()) {
                Option::Some(q) => Option::Some((q.0, p.1 + q.1)),
                Option::None => Option::None,
            },
            Option::None => Option::None,
        }
    }
}

/// The full parse of a captured log: run from the idle state over all lines,
/// then finalize.
pub open spec fn spec_parse_log(raws: Seq<Seq<char>>) -> Option<Seq<TestV>> {
    match spec_run(Option::None, lines_v(raws)) {
        Option::Some(p) => Option::Some(p.1 + spec_finalize(p.0)),
        Option::None => Option::None,
    }
}

/// Running the parser over concatenated line sequences runs it over the
/// first, then over the second from the state reached.
pub proof fn lemma_spec_run_append(st: Option<ActiveV>, l1: Seq<LineV>, l2: Seq<LineV>)
    ensures
        spec_run(st, l1 + l2) == (match spec_run(st, l1) {
            Option::Some(p) => match spec_run(p.0, l2) {
                Option::Some(q) => Option::Some((q.0, p.1 + q.1)),
                Option::None => Option::<(Option<ActiveV>, Seq<TestV>)>::None,
            },
            Option::None => Option::None,
        }),
    decreases l1.len(),
{
    if l1.len() == 0 {
        assert(l1 + l2 =~= l2);
        match spec_run(st, l2) {
            Option::Some(q) => {
                assert(Seq::<TestV>::empty() + q.1 =~= q.1);
            },
            Option::None => {},
        }
    } else {
        assert((l1 + l2)[0] == l1[0]);
        match spec_step(st, l1[0]) {
            Option::Some(p) => {
                assert((l1 + l2).drop_first() =~= l1.drop_first() + l2);
                lemma_spec_run_append(p.0, l1.drop_first(), l2);
                match spec_run(p.0, l1.drop_first()) {
                    Option::Some(q1) => {
                        match spec_run(q1.0, l2) {
                            Option::Some(q2) => {
                                assert(p.1 + (q1.1 + q2.1) =~= (p.1 + q1.1) + q2.1);
                            },
                            Option::None => {},
                        }
                    },
                    Option::None => {},
                }
            },
            Option::None => {},
        }
    }
}

/// Parse a whole captured log: feed every line to a fresh parser, then
/// finalize. Yields exactly the events of [`spec_parse_log`].
pub fn parse_lines(lines: &Vec<String>) -> (r: Result<Vec<Test>, ParseError>)
    ensures
        match r {
            Result::Ok(events) => spec_parse_log(lines.deep_view()) == Some(events.deep_view()),
            Result::Err(e) => spec_parse_log(lines.deep_view()) is None,
        },
{
    let mut parser = Parser::new();
    let mut events: Vec<Test> = Vec::new();
    let ghost all = lines_v(lines.deep_view());
    let mut i: usize = 0;
    proof {
        assert(all.take(0) =~= Seq::<LineV>::empty());
        assert(events.deep_view() =~= Seq::<TestV>::empty());
    }
    while i < lines.len()
        invariant
            0 <= i <= lines@.len(),
            all == lines_v(lines.deep_view()),
            all.len() == lines@.len(),
            spec_run(Option::None, all.take(i as int)) == Option::Some(
                (parser@, events.deep_view()),
            ),
        decreases lines@.len() - i,
    {
        let line = &lines[i];
        let ghost pre = all.take(i as int);
        match parser.parse(line.as_str()) {
            Ok(mut evs) => {
                let ghost old_events = events.deep_view();
                let ghost new_events = evs.deep_view();
                events.append(&mut evs);
                proof {
                    assert(all.take(i + 1) =~= pre + seq![all[i as int]]);
                    assert(all[i as int] == line_v(lines.deep_view()[i as int]));
                    lemma_spec_run_append(Option::None, pre, seq![all[i as int]]);
                    let p = spec_run(Option::None, pre)->Some_0;
                    let step = spec_step(p.0, all[i as int]);
                    let sp = step->Some_0;
                    let single = seq![all[i as int]];
                    assert(single.drop_first().len() == 0);
                    assert(spec_run(sp.0, single.drop_first()) == Option::Some(
                        (sp.0, Seq::<TestV>::empty()),
                    ));
                    assert(single[0] == all[i as int]);
                    assert(spec_run(p.0, single) == Option::Some(
                        (sp.0, sp.1 + Seq::<TestV>::empty()),
                    ));
                    assert(sp.1 + Seq::<TestV>::empty() =~= sp.1);
                    assert(events.deep_view() =~= old_events + new_events);
                }
                i = i + 1;
            },
            Err(e) => {
                proof {
                    assert(all =~= pre + all.skip(i as int));
                    lemma_spec_run_append(Option::None, pre, all.skip(i as int));
                    assert(all.skip(i as int)[0] == all[i as int]);
                    assert(all[i as int] == line_v(lines.deep_view()[i as int]));
                    assert(spec_run(parser@, all.skip(i as int)) is None);
                }
                return Err(e);
            },
        }
    }
    proof {
        assert(all.take(lines@.len() as int) =~= all);
    }
    match parser.finalize() {
        Some(t) => {
            let ghost old_events = events.deep_view();
            events.push(t);
            proof {
                assert(events.deep_view() =~= old_events + spec_finalize(
                    spec_run(Option::None, all)->Some_0.0,
                ));
            }
            Ok(events)
        },
        None => {
            proof {
                assert(events.deep_view() =~= events.deep_view() + spec_finalize(
                    spec_run(Option::None, all)->Some_0.0,
                ));
            }
            Ok(events)
        },
    }
}


/// A line that the parser ignores while idle: not a start marker.
pub open spec fn inert_idle(l: LineV) -> bool {
    !is_start_marker(l.stripped)
}

/// A line that only grows the log of an active test: no marker at all.
pub open spec fn inert_active(l: LineV) -> bool {
    &&& !is_start_marker(l.stripped)
    &&& !is_ok_marker(l.stripped)
    &&& !is_failed_marker(l.stripped)
}

/// A well-formed start-marker line: it carries a test name after the prefix.
pub open spec fn starts_test(l: LineV) -> bool {
    is_start_marker(l.stripped) && first_token(l.stripped.skip(12)) is Some
}

/// The test name on a start-marker line.
pub open spec fn start_token(l: LineV) -> Seq<char> {
    match first_token(l.stripped.skip(12)) {
        Option::Some(t) => t,
        Option::None => Seq::empty(),
    }
}

/// A terminal marker line: a pass or a fail marker.
pub open spec fn is_terminal_marker(l: LineV) -> bool {
    is_ok_marker(l.stripped) || is_failed_marker(l.stripped)
}

/// The three marker shapes are mutually exclusive: their fixed prefixes
/// differ within the first four characters.
pub proof fn lemma_markers_exclusive(s: Seq<char>)
    ensures
        is_start_marker(s) ==> !is_ok_marker(s) && !is_failed_marker(s),
        is_ok_marker(s) ==> !is_failed_marker(s),
{
    if run_prefix().is_prefix_of(s) && ok_prefix().is_prefix_of(s) {
        assert(s.subrange(0, 13)[2] == s[2]);
        assert(false);
    }
    if run_prefix().is_prefix_of(s) && failed_prefix().is_prefix_of(s) {
        assert(s.subrange(0, 13)[2] == s[2]);
        assert(false);
    }
    if ok_prefix().is_prefix_of(s) && failed_prefix().is_prefix_of(s) {
        assert(s.subrange(0, 13)[3] == s[3]);
        assert(false);
    }
}

/// One complete test in a captured log: non-marker lines before it, its
/// start-marker line, its continuation lines, and its terminal marker line.
pub struct BlockV {
    pub lead: Seq<LineV>,
    pub start: LineV,
    pub mids: Seq<LineV>,
    pub term: LineV,
}

pub open spec fn block_wf(b: BlockV) -> bool {
    &&& (forall|k: int| 0 <= k < b.lead.len() ==> inert_idle(#[trigger] b.lead[k]))
    &&& starts_test(b.start)
    &&& (forall|k: int| 0 <= k < b.mids.len() ==> inert_active(#[trigger] b.mids[k]))
    &&& is_terminal_marker(b.term)
}

/// The status the block's terminal marker reports.
pub open spec fn block_status(b: BlockV) -> Status {
    if is_ok_marker(b.term.stripped) {
        Status::Passed
    } else {
        Status::Failed
    }
}

pub open spec fn block_lines(b: BlockV) -> Seq<LineV> {
    b.lead + seq![b.start] + b.mids + seq![b.term]
}

/// The captured log of a block's test: its start line through its terminal
/// line, inclusive.
pub open spec fn block_log(b: BlockV) -> Seq<Seq<char>> {
    seq![b.start.raw] + raws_of(b.mids) + seq![b.term.raw]
}

/// `k` Running events for one test.
pub open spec fn running_events(case: Seq<char>, k: nat) -> Seq<TestV> {
    Seq::new(k, |i: int| running_event(case))
}

/// The events one complete block yields: Starting, one Running per
/// continuation line, and the Terminal event with the marker's status and
/// the block's log.
pub open spec fn block_events(b: BlockV) -> Seq<TestV> {
    seq![starting_event(start_token(b.start))] + running_events(start_token(b.start), b.mids.len())
        + seq![terminal_event(start_token(b.start), block_status(b), block_log(b))]
}

pub open spec fn blocks_lines(bs: Seq<BlockV>) -> Seq<LineV>
    decreases bs.len(),
{
    if bs.len() == 0 {
        Seq::empty()
    } else {
        block_lines(bs[0]) + blocks_lines(bs.drop_first())
    }
}

pub open spec fn blocks_events(bs: Seq<BlockV>) -> Seq<TestV>
    decreases bs.len(),
{
    if bs.len() == 0 {
        Seq::empty()
    } else {
        block_events(bs[0]) + blocks_events(bs.drop_first())
    }
}

/// Running the parser over one line from a given state is one step.
pub proof fn lemma_spec_run_one(st: Option<ActiveV>, l: LineV)
    ensures
        spec_run(st, seq![l]) == (match spec_step(st, l) {
            Option::Some(p) => Option::Some(p),
            Option::None => Option::<(Option<ActiveV>, Seq<TestV>)>::None,
        }),
{
    let single = seq![l];
    assert(single.drop_first().len() == 0);
    match spec_step(st, l) {
        Option::Some(p) => {
            assert(spec_run(p.0, single.drop_first()) == Option::Some(
                (p.0, Seq::<TestV>::empty()),
            ));
            assert(p.1 + Seq::<TestV>::empty() =~= p.1);
        },
        Option::None => {},
    }
}

/// While idle, the parser ignores every non-start line.
pub proof fn lemma_run_inert_idle(ls: Seq<LineV>)
    requires
        forall|k: int| 0 <= k < ls.len() ==> inert_idle(#[trigger] ls[k]),
    ensures
        spec_run(Option::None, ls) == Option::Some(
            (Option::<ActiveV>::None, Seq::<TestV>::empty()),
        ),
    decreases ls.len(),
{
    if ls.len() == 0 {
    } else {
        assert forall|k: int| 0 <= k < ls.drop_first().len() implies inert_idle(
            #[trigger] ls.drop_first()[k],
        ) by {
            assert(ls.drop_first()[k] == ls[k + 1]);
        }
        lemma_run_inert_idle(ls.drop_first());
        assert(Seq::<TestV>::empty() + Seq::<TestV>::empty() =~= Seq::<TestV>::empty());
    }
}

/// While a test is active, non-marker lines only grow its log, one Running
/// event per line.
pub proof fn lemma_run_inert_active(a: ActiveV, ls: Seq<LineV>)
    requires
        forall|k: int| 0 <= k < ls.len() ==> inert_active(#[trigger] ls[k]),
    ensures
        spec_run(Option::Some(a), ls) == Option::Some(
            (
                Option::Some(ActiveV { case: a.case, log: a.log + raws_of(ls) }),
                running_events(a.case, ls.len()),
            ),
        ),
    decreases ls.len(),
{
    if ls.len() == 0 {
        assert(a.log + raws_of(ls) =~= a.log);
        assert(running_events(a.case, 0) =~= Seq::<TestV>::empty());
    } else {
        let l = ls[0];
        let a1 = ActiveV { case: a.case, log: a.log.push(l.raw) };
        assert forall|k: int| 0 <= k < ls.drop_first().len() implies inert_active(
            #[trigger] ls.drop_first()[k],
        ) by {
            assert(ls.drop_first()[k] == ls[k + 1]);
        }
        lemma_run_inert_active(a1, ls.drop_first());
        assert(a1.log + raws_of(ls.drop_first()) =~= a.log + raws_of(ls));
        assert(seq![running_event(a.case)] + running_events(
            a.case,
            ls.drop_first().len(),
        ) =~= running_events(a.case, ls.len()));
    }
}

/// From the idle state, one complete block yields exactly its events and
/// returns the parser to the idle state.
pub proof fn lemma_run_block_from_idle(b: BlockV)
    requires
        block_wf(b),
    ensures
        spec_run(Option::None, block_lines(b)) == Option::Some(
            (Option::<ActiveV>::None, block_events(b)),
        ),
{
    let tok = start_token(b.start);
    let rest = seq![b.start] + (b.mids + seq![b.term]);
    assert(block_lines(b) =~= b.lead + rest);
    lemma_run_inert_idle(b.lead);
    lemma_spec_run_append(Option::None, b.lead, rest);

    // the start line opens the test
    lemma_markers_exclusive(b.start.stripped);
    let a1 = ActiveV { case: tok, log: seq![b.start.raw] };
    lemma_spec_run_append(Option::None, seq![b.start], b.mids + seq![b.term]);
    lemma_spec_run_one(Option::None, b.start);
    assert(spec_step(Option::None, b.start) == Option::Some(
        (Option::Some(a1), seq![starting_event(tok)]),
    ));

    // the continuation lines grow the log
    lemma_spec_run_append(Option::Some(a1), b.mids, seq![b.term]);
    lemma_run_inert_active(a1, b.mids);
    let a2 = ActiveV { case: tok, log: seq![b.start.raw] + raws_of(b.mids) };
    assert(a1.log + raws_of(b.mids) =~= a2.log);

    // the terminal marker closes it
    lemma_spec_run_one(Option::Some(a2), b.term);
    lemma_markers_exclusive(b.term.stripped);
    assert(a2.log.push(b.term.raw) =~= block_log(b));
    assert(spec_step(Option::Some(a2), b.term) == Option::Some(
        (
            Option::<ActiveV>::None,
            seq![terminal_event(tok, block_status(b), block_log(b))],
        ),
    ));

    assert(Seq::<TestV>::empty() + (seq![starting_event(tok)] + (running_events(
        tok,
        b.mids.len(),
    ) + seq![terminal_event(tok, block_status(b), block_log(b))])) =~= block_events(b));
}

/// From the idle state, a sequence of complete blocks yields the
/// concatenation of their events.
pub proof fn lemma_run_blocks(bs: Seq<BlockV>)
    requires
        forall|k: int| 0 <= k < bs.len() ==> block_wf(#[trigger] bs[k]),
    ensures
        spec_run(Option::None, blocks_lines(bs)) == Option::Some(
            (Option::<ActiveV>::None, blocks_events(bs)),
        ),
    decreases bs.len(),
{
    if bs.len() == 0 {
    } else {
        lemma_run_block_from_idle(bs[0]);
        assert forall|k: int| 0 <= k < bs.drop_first().len() implies block_wf(
            #[trigger] bs.drop_first()[k],
        ) by {
            assert(bs.drop_first()[k] == bs[k + 1]);
        }
        lemma_run_blocks(bs.drop_first());
        lemma_spec_run_append(Option::None, block_lines(bs[0]), blocks_lines(bs.drop_first()));
    }
}

/// Law: for a captured log made of complete test blocks — each one start
/// marker followed, after any continuation lines, by a matching pass or fail
/// marker — with arbitrary non-marker lines between the tests and arbitrary
/// non-start lines after the last one, the parser yields exactly one Starting
/// and one Terminal event per block, in block order, each carrying the
/// block's test name; the Terminal status is exactly the status of the marker
/// seen, and its log is the block's lines from start marker to terminal
/// marker inclusive.
pub proof fn lemma_parse_complete_log(bs: Seq<BlockV>, tail: Seq<LineV>)
    requires
        forall|k: int| 0 <= k < bs.len() ==> block_wf(#[trigger] bs[k]),
        forall|k: int| 0 <= k < tail.len() ==> inert_idle(#[trigger] tail[k]),
    ensures
        spec_run(Option::None, blocks_lines(bs) + tail) == Option::Some(
            (Option::<ActiveV>::None, blocks_events(bs)),
        ),
        spec_finalize(Option::<ActiveV>::None) == Seq::<TestV>::empty(),
{
    lemma_run_blocks(bs);
    lemma_run_inert_idle(tail);
    lemma_spec_run_append(Option::None, blocks_lines(bs), tail);
    assert(blocks_events(bs) + Seq::<TestV>::empty() =~= blocks_events(bs));
}

/// Law: if the log ends while a test is active — its start marker was seen,
/// then only continuation lines to the end of the input — the parser yields
/// the events of the complete blocks before it, then that test's Starting and
/// Running events, and finalization yields exactly one aborted Terminal event
/// whose log is every line from the test's start marker to the end of the
/// input, inclusive.
pub proof fn lemma_parse_aborted_tail(
    bs: Seq<BlockV>,
    lead: Seq<LineV>,
    start: LineV,
    mids: Seq<LineV>,
)
    requires
        forall|k: int| 0 <= k < bs.len() ==> block_wf(#[trigger] bs[k]),
        forall|k: int| 0 <= k < lead.len() ==> inert_idle(#[trigger] lead[k]),
        starts_test(start),
        forall|k: int| 0 <= k < mids.len() ==> inert_active(#[trigger] mids[k]),
    ensures
        ({
            let tok = start_token(start);
            let log = seq![start.raw] + raws_of(mids);
            &&& spec_run(Option::None, blocks_lines(bs) + lead + seq![start] + mids)
                == Option::Some(
                (
                    Option::Some(ActiveV { case: tok, log }),
                    blocks_events(bs) + seq![starting_event(tok)] + running_events(
                        tok,
                        mids.len(),
                    ),
                ),
            )
            &&& spec_finalize(Option::Some(ActiveV { case: tok, log })) == seq![
                terminal_event(tok, Status::Aborted, log),
            ]
        }),
{
    let tok = start_token(start);
    let log = seq![start.raw] + raws_of(mids);
    let whole = blocks_lines(bs) + lead + seq![start] + mids;
    assert(whole =~= blocks_lines(bs) + (lead + (seq![start] + mids)));

    lemma_run_blocks(bs);
    lemma_spec_run_append(Option::None, blocks_lines(bs), lead + (seq![start] + mids));
    lemma_run_inert_idle(lead);
    lemma_spec_run_append(Option::None, lead, seq![start] + mids);
    lemma_spec_run_one(Option::None, start);
    lemma_markers_exclusive(start.stripped);
    let a1 = ActiveV { case: tok, log: seq![start.raw] };
    assert(spec_step(Option::None, start) == Option::Some(
        (Option::Some(a1), seq![starting_event(tok)]),
    ));
    lemma_spec_run_append(Option::None, seq![start], mids);
    lemma_run_inert_active(a1, mids);
    assert(a1.log + raws_of(mids) =~= log);
    assert(blocks_events(bs) + (Seq::<TestV>::empty() + (seq![starting_event(tok)]
        + running_events(tok, mids.len()))) =~= blocks_events(bs) + seq![starting_event(tok)]
        + running_events(tok, mids.len()));
}

/// The number of Starting events in an event sequence.
pub open spec fn count_starting(ts: Seq<TestV>) -> int
    decreases ts.len(),
{
    if ts.len() == 0 {
        0
    } else {
        (if ts[0].event is Starting {
            1int
        } else {
            0int
        }) + count_starting(ts.drop_first())
    }
}

/// The number of Terminal events in an event sequence.
pub open spec fn count_terminal(ts: Seq<TestV>) -> int
    decreases ts.len(),
{
    if ts.len() == 0 {
        0
    } else {
        (if ts[0].event is Terminal {
            1int
        } else {
            0int
        }) + count_terminal(ts.drop_first())
    }
}

pub proof fn lemma_counts_append(a: Seq<TestV>, b: Seq<TestV>)
    ensures
        count_starting(a + b) == count_starting(a) + count_starting(b),
        count_terminal(a + b) == count_terminal(a) + count_terminal(b),
    decreases a.len(),
{
    if a.len() == 0 {
        assert(a + b =~= b);
    } else {
        assert((a + b)[0] == a[0]);
        assert((a + b).drop_first() =~= a.drop_first() + b);
        lemma_counts_append(a.drop_first(), b);
    }
}

proof fn lemma_running_events_counts(case: Seq<char>, k: nat)
    ensures
        count_starting(running_events(case, k)) == 0,
        count_terminal(running_events(case, k)) == 0,
    decreases k,
{
    if k > 0 {
        assert(running_events(case, k).drop_first() =~= running_events(case, (k - 1) as nat));
        lemma_running_events_counts(case, (k - 1) as nat);
    }
}

proof fn lemma_counts_single(t: TestV)
    ensures
        count_starting(seq![t]) == (if t.event is Starting {
            1int
        } else {
            0int
        }),
        count_terminal(seq![t]) == (if t.event is Terminal {
            1int
        } else {
            0int
        }),
{
    assert(seq![t].drop_first().len() == 0);
    assert(count_starting(seq![t].drop_first()) == 0);
    assert(count_terminal(seq![t].drop_first()) == 0);
    assert(seq![t][0] == t);
}

/// Law, counting corollary: a log of `K` complete blocks yields exactly `K`
/// Starting and exactly `K` Terminal events.
pub proof fn lemma_complete_log_counts(bs: Seq<BlockV>)
    ensures
        count_starting(blocks_events(bs)) == bs.len(),
        count_terminal(blocks_events(bs)) == bs.len(),
    decreases bs.len(),
{
    if bs.len() == 0 {
    } else {
        let b = bs[0];
        let tok = start_token(b.start);
        let ev = block_events(b);
        lemma_counts_append(
            seq![starting_event(tok)] + running_events(tok, b.mids.len()),
            seq![terminal_event(tok, block_status(b), block_log(b))],
        );
        lemma_counts_append(seq![starting_event(tok)], running_events(tok, b.mids.len()));
        lemma_running_events_counts(tok, b.mids.len());
        lemma_counts_single(starting_event(tok));
        lemma_counts_single(terminal_event(tok, block_status(b), block_log(b)));
        lemma_complete_log_counts(bs.drop_first());
        lemma_counts_append(block_events(bs[0]), blocks_events(bs.drop_first()));
    }
}

} // verus!
