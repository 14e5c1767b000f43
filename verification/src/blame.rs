//! The self-verification harness: scans fixture source text for
//! expected-finding markers and checks each against a detector's
//! captured instances.

use vstd::prelude::*;
use crate::instances::InstanceMap;
use crate::strings::{
    ends_with, find_sub, occurs_at, spec_contains_sub, spec_ends_with, spec_find_sub,
};

verus! {

/// Whether line `line` of the fixture names `name` in a blame marker:
/// the marker text occurs at some position `k`, a closing parenthesis
/// follows, and `name` is one of the comma-separated entries between.
/// `entry_between` delimits one entry by commas or the parentheses.
pub open spec fn marker_names_region(line: Seq<char>, k: int) -> Option<(int, int)> {
    let open = k + "@nyth:blame("@.len();
    if occurs_at(line, "@nyth:blame("@, k) {
        match spec_find_sub(line.skip(open), ")"@) {
            Some(close) => Some((open, open + close)),
            None => None,
        }
    } else {
        None
    }
}

/// Whether `name` stands as one comma-separated entry of `portion`.
pub open spec fn names_entry(portion: Seq<char>, name: Seq<char>) -> bool {
    exists|a: int, b: int|
        {
            &&& 0 <= a <= b <= portion.len()
            &&& portion.subrange(a, b) == name
            &&& (a == 0 || portion[a - 1] == ',')
            &&& (b == portion.len() || portion[b] == ',')
            &&& (forall|q: int| a <= q < b ==> portion[q] != ',')
        }
}

/// Whether a fixture line expects detector `name` to capture the next
/// line: the first blame marker on it lists `name`.
pub open spec fn line_blames(line: Seq<char>, name: Seq<char>) -> bool {
    match spec_find_sub(line, "@nyth:blame("@) {
        Some(k) => match marker_names_region(line, k) {
            Some(region) => names_entry(line.subrange(region.0, region.1), name),
            None => false,
        },
        None => false,
    }
}

/// Splits one comma-separated portion and reports whether `name` is an
/// entry of it.
#[verifier::rlimit(60)]
fn portion_names(portion: &str, name: &str) -> (r: bool)
    ensures
        r == names_entry(portion@, name@),
{
    let n = portion.unicode_len();
    let mut start: usize = 0;
    let mut i: usize = 0;
    loop
        invariant
            n == portion@.len(),
            0 <= start <= i <= n,
            start == 0 || portion@[start - 1] == ',',
            forall|q: int| start <= q < i ==> portion@[q] != ',',
            forall|a: int, b: int|
                0 <= a <= b <= n && (a == 0 || portion@[a - 1] == ',') && (b == n || portion@[b]
                    == ',') && (forall|q: int| a <= q < b ==> portion@[q] != ',') && b < i && (
                #[trigger] portion@.subrange(a, b)) == name@ ==> false,
        ensures
            !names_entry(portion@, name@),
        decreases n - i,
    {
        let at_comma = if i < n {
            portion.get_char(i) == ','
        } else {
            true
        };
        if at_comma {
            // the entry runs from `start` to `i`
            let entry_len = i - start;
            let matches_name = if entry_len == name.unicode_len() {
                crate::strings::ends_with(portion.substring_char(start, i), name)
            } else {
                false
            };
            proof {
                if matches_name {
                    assert(portion@.subrange(start as int, i as int) =~= name@) by {
                        let e = portion@.subrange(start as int, i as int);
                        assert(spec_ends_with(e, name@));
                        assert(e.subrange(e.len() - name@.len(), e.len() as int) =~= e);
                    }
                    assert(names_entry(portion@, name@)) by {
                        assert(0 <= start as int <= i as int <= n);
                        assert((start as int == 0 || portion@[start as int - 1] == ','));
                        assert((i as int == n || portion@[i as int] == ','));
                        assert(forall|q: int| start <= q < i ==> portion@[q] != ',');
                    }
                } else {
                    assert(portion@.subrange(start as int, i as int) != name@) by {
                        if portion@.subrange(start as int, i as int) == name@ {
                            let e = portion@.subrange(start as int, i as int);
                            assert(e.len() == name@.len());
                            assert(spec_ends_with(e, name@)) by {
                                assert(e.subrange(e.len() - name@.len(), e.len() as int) =~= e);
                            }
                        }
                    }
                    // no other entry can end at this position
                    assert forall|a: int, b: int|
                        0 <= a <= b <= n && (a == 0 || portion@[a - 1] == ',') && (b == n
                            || portion@[b] == ',') && (forall|q: int|
                            a <= q < b ==> portion@[q] != ',') && b < i + 1 && (
                        #[trigger] portion@.subrange(a, b)) == name@ implies false by {
                        if b == i as int {
                            if a < start {
                                assert(start >= 1);
                                assert(portion@[start - 1] == ',');
                                assert(a <= start - 1 < b);
                            } else if a > start {
                                assert(portion@[a - 1] != ',') by {
                                    assert(start <= a - 1 < i);
                                }
                                assert(a != 0);
                            } else {
                                assert(portion@.subrange(a, b) == name@);
                            }
                        }
                    }
                }
            }
            if matches_name {
                return true;
            }
            if i == n {
                break ;
            }
            start = i + 1;
        } else {
            if i == n {
                break ;
            }
        }
        i = i + 1;
    }
    proof {
        if names_entry(portion@, name@) {
            let (a, b) = choose|a: int, b: int|
                {
                    &&& 0 <= a <= b <= portion@.len()
                    &&& portion@.subrange(a, b) == name@
                    &&& (a == 0 || portion@[a - 1] == ',')
                    &&& (b == portion@.len() || portion@[b] == ',')
                    &&& (forall|q: int| a <= q < b ==> portion@[q] != ',')
                };
            assert(false);
        }
    }
    false
}

/// Whether one fixture line carries a blame marker naming `name`.
pub fn line_has_blame(line: &str, name: &str) -> (r: bool)
    ensures
        r == line_blames(line@, name@),
{
    match find_sub(line, "@nyth:blame(") {
        None => false,
        Some(k) => {
            let n = line.unicode_len();
            let marker_len = "@nyth:blame(".unicode_len();
            let open = k + marker_len;
            let rest = line.substring_char(open, n);
            proof {
                assert(rest@ =~= line@.skip(open as int));
            }
            match find_sub(rest, ")") {
                None => false,
                Some(close) => {
                    let portion = line.substring_char(open, open + close);
                    proof {
                        assert(portion@ =~= line@.subrange(open as int, open as int + close as int));
                    }
                    portion_names(portion, name)
                },
            }
        },
    }
}

/// Collects the expected capture lines of a fixture: for every line
/// whose blame marker names the detector, the following line's 1-based
/// number.
#[verifier::loop_isolation(false)]
pub fn blame_expected_lines(lines: &Vec<String>, name: &str) -> (r: Vec<usize>)
    requires
        lines@.len() + 2 <= usize::MAX,
    ensures
        r@.len() <= lines@.len(),
        forall|q: int|
            0 <= q < r@.len() ==> 2 <= #[trigger] r@[q] && r@[q] <= lines@.len() + 1 && line_blames(
                lines@[r@[q] - 2]@,
                name@,
            ),
        forall|i: int|
            0 <= i < lines@.len() && line_blames((#[trigger] lines@[i])@, name@) ==> r@.contains(
                (i + 2) as usize,
            ),
{
    let mut r: Vec<usize> = Vec::new();
    let mut i: usize = 0;
    while i < lines.len()
        invariant
            0 <= i <= lines@.len(),
            r@.len() <= i,
            forall|q: int|
                0 <= q < r@.len() ==> 2 <= #[trigger] r@[q] && r@[q] <= lines@.len() + 1
                    && line_blames(lines@[r@[q] - 2]@, name@),
            forall|i2: int|
                0 <= i2 < i && line_blames((#[trigger] lines@[i2])@, name@) ==> r@.contains(
                    (i2 + 2) as usize,
                ),
        decreases lines@.len() - i,
    {
        if line_has_blame(lines[i].as_str(), name) {
            let ghost prev = r@;
            r.push(i + 2);
            proof {
                assert(r@[r@.len() - 1] == i + 2);
                assert forall|i2: int|
                    0 <= i2 < i + 1 && line_blames((#[trigger] lines@[i2])@, name@) implies r@.contains(
                    (i2 + 2) as usize,
                ) by {
                    if i2 < i {
                        assert(prev.contains((i2 + 2) as usize));
                        let w = choose|w: int| 0 <= w < prev.len() && prev[w] == (i2 + 2) as usize;
                        assert(r@[w] == (i2 + 2) as usize);
                    } else {
                        assert(r@[r@.len() - 1] == (i2 + 2) as usize);
                    }
                }
            }
        }
        i = i + 1;
    }
    r
}

/// Whether some captured instance matches an expected (file, line) pair:
/// the fixture path ends with the instance's file and the lines agree.
pub open spec fn spec_pair_covered(
    instances: Seq<crate::instances::InstanceEntry>,
    file: Seq<char>,
    line: int,
) -> bool {
    exists|j: int|
        0 <= j < instances.len() && spec_ends_with(file, (#[trigger] instances[j]).0.0)
            && instances[j].0.1 == line
}

/// The expected pairs among `expected` that no captured instance
/// covers: what a failing self-check reports.
#[verifier::loop_isolation(false)]
pub fn blame_uncovered(instances: &InstanceMap, file: &str, expected: &Vec<usize>) -> (r: Vec<
    usize,
>)
    ensures
        forall|q: int|
            0 <= q < r@.len() ==> expected@.contains(#[trigger] r@[q]) && !spec_pair_covered(
                instances@,
                file@,
                r@[q] as int,
            ),
        forall|q: int|
            0 <= q < expected@.len() && !spec_pair_covered(
                instances@,
                file@,
                #[trigger] expected@[q] as int,
            ) ==> r@.contains(expected@[q]),
{
    let mut r: Vec<usize> = Vec::new();
    let entries = instances.entries();
    let mut q: usize = 0;
    while q < expected.len()
        invariant
            0 <= q <= expected@.len(),
            entries@.len() == instances@.len(),
            forall|j: int|
                0 <= j < entries@.len() ==> (#[trigger] entries@[j]).0.key_model()
                    == instances@[j].0 && entries@[j].1 == instances@[j].1,
            forall|w: int|
                0 <= w < r@.len() ==> expected@.contains(#[trigger] r@[w]) && !spec_pair_covered(
                    instances@,
                    file@,
                    r@[w] as int,
                ),
            forall|q2: int|
                0 <= q2 < q && !spec_pair_covered(
                    instances@,
                    file@,
                    #[trigger] expected@[q2] as int,
                ) ==> r@.contains(expected@[q2]),
        decreases expected@.len() - q,
    {
        let line = expected[q];
        let mut covered = false;
        let mut j: usize = 0;
        while j < entries.len()
            invariant
                0 <= j <= entries@.len(),
                entries@.len() == instances@.len(),
                forall|j2: int|
                    0 <= j2 < entries@.len() ==> (#[trigger] entries@[j2]).0.key_model()
                        == instances@[j2].0 && entries@[j2].1 == instances@[j2].1,
                covered ==> spec_pair_covered(instances@, file@, line as int),
                !covered ==> forall|j2: int|
                    0 <= j2 < j ==> !(spec_ends_with(file@, (#[trigger] instances@[j2]).0.0)
                        && instances@[j2].0.1 == line),
            decreases entries@.len() - j,
        {
            let e = &entries[j];
            if e.0.line == line && ends_with(file, e.0.file.as_str()) {
                proof {
                    assert(instances@[j as int].0 == e.0.key_model());
                }
                covered = true;
            }
            j = j + 1;
        }
        if !covered {
            let ghost prev = r@;
            r.push(line);
            proof {
                assert(!spec_pair_covered(instances@, file@, line as int));
                assert(expected@.contains(line)) by {
                    assert(expected@[q as int] == line);
                }
                assert forall|q2: int|
                    0 <= q2 < q + 1 && !spec_pair_covered(
                        instances@,
                        file@,
                        #[trigger] expected@[q2] as int,
                    ) implies r@.contains(expected@[q2]) by {
                    if q2 < q {
                        assert(prev.contains(expected@[q2]));
                        let w = choose|w: int|
                            0 <= w < prev.len() && prev[w] == expected@[q2];
                        assert(r@[w] == expected@[q2]);
                    } else {
                        assert(r@[r@.len() - 1] == expected@[q2]);
                    }
                }
            }
        } else {
            proof {
                assert forall|q2: int|
                    0 <= q2 < q + 1 && !spec_pair_covered(
                        instances@,
                        file@,
                        #[trigger] expected@[q2] as int,
                    ) implies r@.contains(expected@[q2]) by {}
            }
        }
        q = q + 1;
    }
    r
}

/// Whether 1-based line `v` is one the fixture expects captured: the
/// line before it carries a blame marker naming the detector.
pub open spec fn spec_line_is_blamed(lines: Seq<String>, name: Seq<char>, v: int) -> bool {
    exists|i: int| 0 <= i < lines.len() && line_blames((#[trigger] lines[i])@, name) && v == i + 2
}

/// The whole self-check: scans the fixture's lines for markers naming
/// the detector, and reports whether every expected line is covered by
/// an instance, together with the uncovered lines.
pub fn verify_blame_coverage(
    instances: &InstanceMap,
    file: &str,
    lines: &Vec<String>,
    name: &str,
) -> (r: (bool, Vec<usize>))
    requires
        lines@.len() + 2 <= usize::MAX,
    ensures
        r.0 == (r.1@.len() == 0),
        forall|q: int|
            0 <= q < r.1@.len() ==> !spec_pair_covered(instances@, file@, #[trigger] r.1@[q] as int),
        forall|q: int|
            0 <= q < r.1@.len() ==> spec_line_is_blamed(lines@, name@, #[trigger] r.1@[q] as int),
        forall|i: int|
            0 <= i < lines@.len() && line_blames((#[trigger] lines@[i])@, name@)
                && !spec_pair_covered(instances@, file@, i + 2) ==> r.1@.contains((i + 2) as usize),
{
    let expected = blame_expected_lines(lines, name);
    let uncovered = blame_uncovered(instances, file, &expected);
    let ok = uncovered.len() == 0;
    proof {
        // every reported line comes from `expected`, whose entries are
        // exactly the blamed lines
        assert forall|q: int| 0 <= q < uncovered@.len() implies spec_line_is_blamed(
            lines@,
            name@,
            #[trigger] uncovered@[q] as int,
        ) by {
            assert(expected@.contains(uncovered@[q]));
            let w = choose|w: int| 0 <= w < expected@.len() && expected@[w] == uncovered@[q];
            let v = expected@[w];
            assert(2 <= v && v <= lines@.len() + 1 && line_blames(lines@[v - 2]@, name@));
            let i = v as int - 2;
            assert(0 <= i < lines@.len() && line_blames((lines@[i])@, name@) && uncovered@[q] as int
                == i + 2);
        }
    }
    (ok, uncovered)
}

} // verus!
