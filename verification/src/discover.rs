//! The test-listing parser: it turns the output of a test executable's
//! list-tests mode into the set of qualified test identifiers.
//!
//! Listing grammar: a line without a leading space names a suite (its first
//! whitespace-delimited token); an indented line names one case of the
//! current suite (again its first token). The qualified identifier is the
//! direct concatenation of the two tokens. Identifiers whose case part
//! contains the disabled marker are excluded unless disabled tests are
//! requested; duplicates are kept once, in first-seen order.
use vstd::prelude::*;

use crate::text::{
    contains_chars, contains_seq, disabled_marker, disabled_marker_chars, extract_token,
    first_token,
};

verus! {

/// Why a listing could not be parsed.
#[derive(Debug, Clone, Copy, PartialEq, Eq, Structural)]
pub enum DiscoveryError {
    /// An indented case line appeared before any suite line named a suite.
    CaseBeforeSuite,
    /// An indented line held no case name, only whitespace.
    MissingCaseName,
}

/// One listing line applied to the scan state (current suite, identifiers
/// collected so far).
pub open spec fn spec_discover_step(
    suite: Option<Seq<char>>,
    acc: Seq<Seq<char>>,
    line: Seq<char>,
    include_disabled: bool,
) -> Result<(Option<Seq<char>>, Seq<Seq<char>>), DiscoveryError> {
    if line.len() > 0 && line[0] == ' ' {
        match suite {
            Option::None => Result::Err(DiscoveryError::CaseBeforeSuite),
            Option::Some(s) => match first_token(line) {
                Option::None => Result::Err(DiscoveryError::MissingCaseName),
                Option::Some(case) => {
                    let id = s + case;
                    if !include_disabled && contains_seq(case, disabled_marker()) {
                        Result::Ok((suite, acc))
                    } else if acc.contains(id) {
                        Result::Ok((suite, acc))
                    } else {
                        Result::Ok((suite, acc.push(id)))
                    }
                },
            },
        }
    } else {
        Result::Ok((first_token(line), acc))
    }
}

/// The whole listing scan from a given state.
pub open spec fn spec_discover_from(
    suite: Option<Seq<char>>,
    acc: Seq<Seq<char>>,
    lines: Seq<Seq<char>>,
    include_disabled: bool,
) -> Result<Seq<Seq<char>>, DiscoveryError>
    decreases lines.len(),
{
    if lines.len() == 0 {
        Result::Ok(acc)
    } else {
        match spec_discover_step(suite, acc, lines[0], include_disabled) {
            Result::Ok(p) => spec_discover_from(p.0, p.1, lines.drop_first(), include_disabled),
            Result::Err(e) => Result::Err(e),
        }
    }
}

/// The identifiers a listing yields, or the first error.
pub open spec fn spec_discover(lines: Seq<Seq<char>>, include_disabled: bool) -> Result<
    Seq<Seq<char>>,
    DiscoveryError,
> {
    spec_discover_from(Option::None, Seq::empty(), lines, include_disabled)
}

/// Whether `v` holds a string with exactly the characters `s`.
fn vec_contains_string(v: &Vec<String>, s: &String) -> (b: bool)
    ensures
        b == v.deep_view().contains(s@),
{
    let mut i: usize = 0;
    while i < v.len()
        invariant
            0 <= i <= v@.len(),
            forall|k: int| 0 <= k < i ==> v.deep_view()[k] != s@,
        decreases v@.len() - i,
    {
        if v[i] == *s {
            proof {
                assert(v.deep_view()[i as int] == s@);
            }
            return true;
        }
        i = i + 1;
    }
    false
}

/// Parse a list-tests output: exactly the identifiers of [`spec_discover`],
/// or its error.
pub fn parse_test_list(lines: &Vec<String>, include_disabled_tests: bool) -> (r: Result<
    Vec<String>,
    DiscoveryError,
>)
    ensures
        match r {
            Result::Ok(ids) => spec_discover(lines.deep_view(), include_disabled_tests)
                == Result::<Seq<Seq<char>>, DiscoveryError>::Ok(ids.deep_view()),
            Result::Err(e) => spec_discover(lines.deep_view(), include_disabled_tests)
                == Result::<Seq<Seq<char>>, DiscoveryError>::Err(e),
        },
{
    let ghost all = lines.deep_view();
    let ghost goal = spec_discover(all, include_disabled_tests);
    let disabled = disabled_marker_chars();
    let mut suite: Option<String> = None;
    let mut ids: Vec<String> = Vec::new();
    let mut i: usize = 0;
    proof {
        assert(all.skip(0) =~= all);
        assert(ids.deep_view() =~= Seq::<Seq<char>>::empty());
    }
    while i < lines.len()
        invariant
            0 <= i <= lines@.len(),
            all == lines.deep_view(),
            all.len() == lines@.len(),
            goal == spec_discover(all, include_disabled_tests),
            spec_discover_from(
                suite.deep_view(),
                ids.deep_view(),
                all.skip(i as int),
                include_disabled_tests,
            ) == goal,
            disabled@ == disabled_marker(),
        decreases lines@.len() - i,
    {
        let ghost rem = all.skip(i as int);
        proof {
            assert(rem[0] == all[i as int]);
            assert(rem.drop_first() =~= all.skip(i + 1));
        }
        let line = &lines[i];
        let n = line.as_str().unicode_len();
        let indented = n > 0 && line.as_str().get_char(0) == ' ';
        if indented {
            match &suite {
                None => {
                    return Err(DiscoveryError::CaseBeforeSuite);
                },
                Some(st) => {
                    match extract_token(line.as_str(), 0) {
                        None => {
                            proof {
                                assert(line@.skip(0) =~= line@);
                            }
                            return Err(DiscoveryError::MissingCaseName);
                        },
                        Some(case) => {
                            proof {
                                assert(line@.skip(0) =~= line@);
                            }
                            if include_disabled_tests || !contains_chars(
                                case.as_str(),
                                &disabled,
                            ) {
                                let mut id = st.clone();
                                id.append(case.as_str());
                                if !vec_contains_string(&ids, &id) {
                                    let ghost old_ids = ids.deep_view();
                                    ids.push(id);
                                    proof {
                                        assert(ids.deep_view() =~= old_ids.push(
                                            st@ + case@,
                                        ));
                                    }
                                }
                            }
                        },
                    }
                },
            }
        } else {
            suite = extract_token(line.as_str(), 0);
            proof {
                assert(line@.skip(0) =~= line@);
            }
        }
        i = i + 1;
    }
    proof {
        assert(all.skip(lines@.len() as int) =~= Seq::<Seq<char>>::empty());
    }
    Ok(ids)
}

/// An identifier assembled from a suite part and a case part that does not
/// contain the disabled marker.
pub open spec fn undisabled_id(id: Seq<char>) -> bool {
    exists|s: Seq<char>, c: Seq<char>|
        id == #[trigger] (s + c) && !contains_seq(c, disabled_marker())
}

proof fn lemma_discover_from_excludes(
    suite: Option<Seq<char>>,
    acc: Seq<Seq<char>>,
    lines: Seq<Seq<char>>,
)
    requires
        forall|k: int| 0 <= k < acc.len() ==> undisabled_id(#[trigger] acc[k]),
    ensures
        spec_discover_from(suite, acc, lines, false) matches Ok(ids) ==> forall|k: int|
            0 <= k < ids.len() ==> undisabled_id(#[trigger] ids[k]),
    decreases lines.len(),
{
    if lines.len() == 0 {
    } else {
        match spec_discover_step(suite, acc, lines[0], false) {
            Result::Ok(p) => {
                assert forall|k: int| 0 <= k < p.1.len() implies undisabled_id(
                    #[trigger] p.1[k],
                ) by {
                    if k < acc.len() {
                        assert(undisabled_id(acc[k]));
                    } else {
                        // the pushed identifier: a suite part plus a case
                        // part that passed the disabled check
                        let s = suite->Some_0;
                        let case = first_token(lines[0])->Some_0;
                        assert(p.1[k] == s + case);
                        assert(!contains_seq(case, disabled_marker()));
                    }
                }
                lemma_discover_from_excludes(p.0, p.1, lines.drop_first());
            },
            Result::Err(e) => {},
        }
    }
}

/// Law: with disabled tests not requested, discovery never returns an
/// identifier whose case part contains the disabled marker — every
/// identifier it returns is a suite part plus a case part free of it.
pub proof fn lemma_discovery_excludes_disabled(lines: Seq<Seq<char>>)
    ensures
        spec_discover(lines, false) matches Ok(ids) ==> forall|k: int|
            0 <= k < ids.len() ==> undisabled_id(#[trigger] ids[k]),
{
    lemma_discover_from_excludes(Option::None, Seq::empty(), lines);
}

} // verus!
