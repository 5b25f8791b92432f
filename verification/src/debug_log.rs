//! What is kept to find faults with.

use crate::text::{decimal, decimal_of, join_two, numeral, numeral_of};
use vstd::prelude::*;

verus! {

/// How many files of audio are kept.
pub const KEPT_DUMPS: usize = 24;

/// A line of the log, with the time in milliseconds.
pub fn log_line(timestamp: u128, line: &str) -> (written: String)
    ensures
        written@ == numeral(timestamp as nat, 10) + " "@ + line@,
{
    join_two(join_two(numeral_of(timestamp, 10).as_str(), " ").as_str(), line)
}

/// The name of a file of audio.
pub fn dump_file_name(stamp: u128, label: &str, sample_rate: u32) -> (name: String)
    ensures
        name@ == numeral(stamp as nat, 10) + "-"@ + label@ + "-"@ + decimal(sample_rate as nat)
            + "hz.wav"@,
{
    let dated: String = join_two(join_two(numeral_of(stamp, 10).as_str(), "-").as_str(), label);
    let rated: String = join_two(
        join_two(dated.as_str(), "-").as_str(),
        decimal_of(sample_rate as u64).as_str(),
    );
    join_two(rated.as_str(), "hz.wav")
}

/// How many samples of two bytes a file holds, after a header of forty-four bytes.
pub fn dump_samples(len: usize) -> (samples: usize)
    ensures
        samples == if len < 44 {
            0
        } else {
            (len - 44) / 2
        },
{
    if len < 44 {
        0
    } else {
        (len - 44) / 2
    }
}

/// Of two files, the first is to go before the second: it is older, or as old and found earlier.
pub open spec fn goes_before(modified: Seq<i128>, a: int, b: int) -> bool {
    modified[a] < modified[b] || (modified[a] == modified[b] && a < b)
}

/// The files to remove so that only the newest `keep` stay, given when each was changed: as many as
/// are too many, none twice, and each older than every one that stays.
pub open spec fn prunes(removed: Seq<usize>, modified: Seq<i128>, keep: int) -> bool {
    &&& removed.len() == if modified.len() <= keep {
        0
    } else {
        modified.len() - keep
    }
    &&& removed.no_duplicates()
    &&& forall|i: int| 0 <= i < removed.len() ==> #[trigger] removed[i] < modified.len()
    &&& forall|i: int, k: int|
        0 <= i < removed.len() && 0 <= k < modified.len() && !removed.contains(k as usize)
            ==> #[trigger] goes_before(modified, removed[i] as int, k)
}

/// What has been chosen to go and what is left, as long as more has to be chosen.
spec fn parts(removed: Seq<usize>, rest: Seq<usize>, modified: Seq<i128>) -> bool {
    &&& removed.len() + rest.len() == modified.len()
    &&& removed.no_duplicates()
    &&& rest.no_duplicates()
    &&& forall|i: int| 0 <= i < removed.len() ==> #[trigger] removed[i] < modified.len()
    &&& forall|i: int| 0 <= i < rest.len() ==> #[trigger] rest[i] < modified.len()
    &&& forall|k: usize|
        k < modified.len() ==> #[trigger] removed.contains(k) || rest.contains(k)
    &&& forall|i: int, j: int|
        0 <= i < removed.len() && 0 <= j < rest.len() ==> #[trigger] goes_before(
            modified,
            removed[i] as int,
            rest[j] as int,
        )
}

/// The files to remove so that only the newest `keep` stay.
pub fn files_to_prune(modified: &Vec<i128>, keep: usize) -> (removed: Vec<usize>)
    ensures
        prunes(removed@, modified@, keep as int),
{
    let mut removed: Vec<usize> = Vec::new();
    let mut rest: Vec<usize> = Vec::new();
    let mut i: usize = 0;
    while i < modified.len()
        invariant
            i <= modified@.len(),
            rest@.len() == i,
            forall|j: int| 0 <= j < i ==> rest@[j] == j,
        decreases modified@.len() - i,
    {
        rest.push(i);
        i = i + 1;
    }
    assert forall|k: usize| k < modified@.len() implies #[trigger] removed@.contains(k)
        || rest@.contains(k) by {
        assert(rest@[k as int] == k);
    }
    while rest.len() > keep
        invariant
            parts(removed@, rest@, modified@),
            modified@.len() <= keep ==> removed@.len() == 0,
            modified@.len() > keep ==> rest@.len() >= keep,
        decreases rest@.len(),
    {
        let mut at: usize = 0;
        let mut j: usize = 1;
        while j < rest.len()
            invariant
                at < j <= rest@.len(),
                rest@.no_duplicates(),
                forall|i: int| 0 <= i < rest@.len() ==> #[trigger] rest@[i] < modified@.len(),
                forall|i: int|
                    0 <= i < j && i != at ==> #[trigger] goes_before(
                        modified@,
                        rest@[at as int] as int,
                        rest@[i] as int,
                    ),
            decreases rest@.len() - j,
        {
            let a: usize = rest[at];
            let b: usize = rest[j];
            let ghost held = at as int;
            assert(a != b);
            if modified[b] < modified[a] || (modified[b] == modified[a] && b < a) {
                at = j;
            }
            assert forall|i: int| 0 <= i < j + 1 && i != at implies #[trigger] goes_before(
                modified@,
                rest@[at as int] as int,
                rest@[i] as int,
            ) by {
                if i < j && i != held {
                    assert(goes_before(modified@, rest@[held] as int, rest@[i] as int));
                }
            }
            j = j + 1;
        }
        let ghost before = (removed@, rest@);
        let oldest: usize = rest.remove(at);
        removed.push(oldest);
        proof {
            lemma_chosen(before.0, before.1, modified@, at as int);
        }
    }
    proof {
        assert forall|i: int, k: int|
            0 <= i < removed@.len() && 0 <= k < modified@.len() && !removed@.contains(
                k as usize,
            ) implies #[trigger] goes_before(modified@, removed@[i] as int, k) by {
            assert(rest@.contains(k as usize));
            let j = choose|j: int| 0 <= j < rest@.len() && rest@[j] == k as usize;
            assert(goes_before(modified@, removed@[i] as int, rest@[j] as int));
        }
    }
    removed
}

/// The oldest file of those that are left can be chosen next.
proof fn lemma_chosen(removed: Seq<usize>, rest: Seq<usize>, modified: Seq<i128>, at: int)
    requires
        parts(removed, rest, modified),
        0 <= at < rest.len(),
        forall|i: int|
            0 <= i < rest.len() && i != at ==> #[trigger] goes_before(
                modified,
                rest[at] as int,
                rest[i] as int,
            ),
    ensures
        parts(removed.push(rest[at]), rest.remove(at), modified),
{
    let r = removed.push(rest[at]);
    let s = rest.remove(at);
    assert(!removed.contains(rest[at])) by {
        if removed.contains(rest[at]) {
            let i = choose|i: int| 0 <= i < removed.len() && removed[i] == rest[at];
            assert(goes_before(modified, removed[i] as int, rest[at] as int));
        }
    }
    assert forall|k: usize| k < modified.len() implies #[trigger] r.contains(k) || s.contains(k) by {
        assert(removed.contains(k) || rest.contains(k));
        if removed.contains(k) {
            let i = choose|i: int| 0 <= i < removed.len() && removed[i] == k;
            assert(r[i] == k);
        } else {
            let i = choose|i: int| 0 <= i < rest.len() && rest[i] == k;
            if i == at {
                assert(r[removed.len() as int] == k);
            } else if i < at {
                assert(s[i] == k);
            } else {
                assert(s[i - 1] == k);
            }
        }
    }
    assert forall|i: int, j: int| 0 <= i < r.len() && 0 <= j < s.len() implies #[trigger] goes_before(
        modified,
        r[i] as int,
        s[j] as int,
    ) by {
        let k = if j < at {
            j
        } else {
            j + 1
        };
        assert(s[j] == rest[k]);
        if i < removed.len() {
            assert(goes_before(modified, removed[i] as int, rest[k] as int));
        } else {
            assert(goes_before(modified, rest[at] as int, rest[k] as int));
        }
    }
}

/// However many files there are, at most `keep` of them stay.
pub proof fn law_few_files_stay(removed: Seq<usize>, modified: Seq<i128>, keep: int)
    requires
        prunes(removed, modified, keep),
        0 <= keep,
    ensures
        modified.len() - removed.len() <= keep,
        modified.len() <= keep ==> removed.len() == 0,
{
}

/// What is removed is older than what stays, or as old and listed before it; nothing is removed twice,
/// and as many stay as may.
pub proof fn law_the_oldest_files_go(
    removed: Seq<usize>,
    modified: Seq<i128>,
    keep: int,
    i: int,
    k: int,
)
    requires
        prunes(removed, modified, keep),
        0 <= keep,
        0 <= i < removed.len(),
        0 <= k < modified.len(),
        k <= usize::MAX,
        !removed.contains(k as usize),
    ensures
        removed[i] < modified.len(),
        modified[removed[i] as int] <= modified[k],
        modified[removed[i] as int] == modified[k] ==> removed[i] < k,
        modified.len() > keep ==> removed.len() == modified.len() - keep,
        KEPT_DUMPS == 24,
{
    assert(goes_before(modified, removed[i] as int, k));
}

} // verus!
