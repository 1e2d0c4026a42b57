//! Built-in sample test data: the listing and console output of a small
//! imaginary test executable with one suite of two passing tests. The
//! application can impersonate such an executable with it, and the crate's
//! tests drive the parser and aggregator end to end on it.
use vstd::prelude::*;

verus! {

/// The listing the sample executable prints in list-tests mode: one suite
/// with two cases.
pub fn sample_listing_lines() -> (v: Vec<String>)
    ensures
        v.deep_view() == seq!["NOPE."@, "  NOPE0"@, "  NOPE1"@],
{
    let mut v: Vec<String> = Vec::new();
    v.push(String::from_str("NOPE."));
    v.push(String::from_str("  NOPE0"));
    v.push(String::from_str("  NOPE1"));
    proof {
        assert(v.deep_view() =~= seq!["NOPE."@, "  NOPE0"@, "  NOPE1"@]);
    }
    v
}

/// The console output of the sample executable: with one shard it runs both
/// tests; with two shards each shard runs the test matching its index. More
/// than two shards are not supported.
pub fn sample_run_lines(shard_index: usize, total_shards: usize) -> (v: Vec<String>)
    requires
        1 <= total_shards <= 2,
        shard_index < total_shards,
    ensures
        total_shards == 1 ==> v.deep_view() == seq![
            "[==========] Running 2 tests from 1 test case."@,
            "[----------] Global test environment set-up."@,
            "[----------] 2 tests from NOPE"@,
            "[ RUN      ] NOPE.NOPE0"@,
            "[       OK ] NOPE.NOPE0 (0 ms)"@,
            "[ RUN      ] NOPE.NOPE1"@,
            "[       OK ] NOPE.NOPE1 (0 ms)"@,
        ],
        total_shards == 2 ==> v.deep_view() == seq![
            "[==========] Running 1 tests from 1 test case."@,
            "[----------] Global test environment set-up."@,
            "[----------] 1 tests from NOPE"@,
            (if shard_index == 0 {
                "[ RUN      ] NOPE.NOPE0"@
            } else {
                "[ RUN      ] NOPE.NOPE1"@
            }),
            (if shard_index == 0 {
                "[       OK ] NOPE.NOPE0 (0 ms)"@
            } else {
                "[       OK ] NOPE.NOPE1 (0 ms)"@
            }),
        ],
{
    let mut v: Vec<String> = Vec::new();
    if total_shards == 1 {
        v.push(String::from_str("[==========] Running 2 tests from 1 test case."));
        v.push(String::from_str("[----------] Global test environment set-up."));
        v.push(String::from_str("[----------] 2 tests from NOPE"));
        v.push(String::from_str("[ RUN      ] NOPE.NOPE0"));
        v.push(String::from_str("[       OK ] NOPE.NOPE0 (0 ms)"));
        v.push(String::from_str("[ RUN      ] NOPE.NOPE1"));
        v.push(String::from_str("[       OK ] NOPE.NOPE1 (0 ms)"));
        proof {
            assert(v.deep_view() =~= seq![
                "[==========] Running 2 tests from 1 test case."@,
                "[----------] Global test environment set-up."@,
                "[----------] 2 tests from NOPE"@,
                "[ RUN      ] NOPE.NOPE0"@,
                "[       OK ] NOPE.NOPE0 (0 ms)"@,
                "[ RUN      ] NOPE.NOPE1"@,
                "[       OK ] NOPE.NOPE1 (0 ms)"@,
            ]);
        }
    } else {
        v.push(String::from_str("[==========] Running 1 tests from 1 test case."));
        v.push(String::from_str("[----------] Global test environment set-up."));
        v.push(String::from_str("[----------] 1 tests from NOPE"));
        if shard_index == 0 {
            v.push(String::from_str("[ RUN      ] NOPE.NOPE0"));
            v.push(String::from_str("[       OK ] NOPE.NOPE0 (0 ms)"));
        } else {
            v.push(String::from_str("[ RUN      ] NOPE.NOPE1"));
            v.push(String::from_str("[       OK ] NOPE.NOPE1 (0 ms)"));
        }
        proof {
            assert(v.deep_view() =~= seq![
                "[==========] Running 1 tests from 1 test case."@,
                "[----------] Global test environment set-up."@,
                "[----------] 1 tests from NOPE"@,
                (if shard_index == 0 {
                    "[ RUN      ] NOPE.NOPE0"@
                } else {
                    "[ RUN      ] NOPE.NOPE1"@
                }),
                (if shard_index == 0 {
                    "[       OK ] NOPE.NOPE0 (0 ms)"@
                } else {
                    "[       OK ] NOPE.NOPE1 (0 ms)"@
                }),
            ]);
        }
    }
    v
}

} // verus!
