//! Hysteresis smoothing of a per-frame decision sequence.
//!
//! A run is a maximal block of consecutive equal decisions. One pass flips
//! every run of a chosen label that is shorter than a threshold; the detector
//! applies two passes, first filling short silence gaps and then removing
//! short voice bursts.

use vstd::prelude::*;
use vstd::slice::slice_to_vec;

verus! {

/// Silence runs shorter than this many frames are turned into voice.
pub const MIN_SILENCE_RUN: usize = 10;

/// Voice runs shorter than this many frames are turned into silence.
pub const MIN_VOICE_RUN: usize = 5;

/// Index of the first element of the run that holds position `i`.
pub open spec fn run_start(s: Seq<bool>, i: int) -> int
    decreases i,
{
    if 0 < i < s.len() && s[i - 1] == s[i] {
        run_start(s, i - 1)
    } else {
        i
    }
}

/// Index one past the last element of the run that holds position `i`.
pub open spec fn run_end(s: Seq<bool>, i: int) -> int
    decreases s.len() - i,
{
    if 0 <= i && i + 1 < s.len() && s[i + 1] == s[i] {
        run_end(s, i + 1)
    } else {
        i + 1
    }
}

/// Length of the run that holds position `i`.
pub open spec fn run_len(s: Seq<bool>, i: int) -> int {
    run_end(s, i) - run_start(s, i)
}

/// `[a, b)` is a run of `s`: a non-empty block of equal values that cannot be
/// extended on either side.
pub open spec fn is_run(s: Seq<bool>, a: int, b: int) -> bool {
    &&& 0 <= a < b <= s.len()
    &&& forall|k: int| a <= k < b ==> s[k] == s[a]
    &&& (a == 0 || s[a - 1] != s[a])
    &&& (b == s.len() || s[b] != s[a])
}

/// Whether one pass flips position `i`: it carries `label` and its run is
/// shorter than `min_len`.
pub open spec fn flips(s: Seq<bool>, min_len: nat, label: bool, i: int) -> bool {
    s[i] == label && run_len(s, i) < min_len
}

/// Result of one smoothing pass: every run of `label` shorter than `min_len`
/// is flipped as a whole, everything else is kept.
pub open spec fn smoothed(s: Seq<bool>, min_len: nat, label: bool) -> Seq<bool> {
    Seq::new(
        s.len(),
        |i: int|
            if flips(s, min_len, label, i) {
                !label
            } else {
                s[i]
            },
    )
}

/// Result of the detector's two passes, in their fixed order.
pub open spec fn smoothed_twice(s: Seq<bool>) -> Seq<bool> {
    smoothed(smoothed(s, MIN_SILENCE_RUN as nat, false), MIN_VOICE_RUN as nat, true)
}

/// The run around `i` starts at or before `i`, holds one value from its start
/// up to `i`, and cannot be extended to the left.
pub proof fn lemma_run_start(s: Seq<bool>, i: int)
    requires
        0 <= i < s.len(),
    ensures
        0 <= run_start(s, i) <= i,
        forall|k: int| run_start(s, i) <= k <= i ==> s[k] == s[i],
        run_start(s, i) == 0 || s[run_start(s, i) - 1] != s[i],
    decreases i,
{
    if 0 < i && s[i - 1] == s[i] {
        lemma_run_start(s, i - 1);
    }
}

/// The run around `i` ends after `i`, holds one value from `i` up to its end,
/// and cannot be extended to the right.
pub proof fn lemma_run_end(s: Seq<bool>, i: int)
    requires
        0 <= i < s.len(),
    ensures
        i < run_end(s, i) <= s.len(),
        forall|k: int| i <= k < run_end(s, i) ==> s[k] == s[i],
        run_end(s, i) == s.len() || s[run_end(s, i)] != s[i],
    decreases s.len() - i,
{
    if i + 1 < s.len() && s[i + 1] == s[i] {
        lemma_run_end(s, i + 1);
    }
}

/// A block of equal values that reaches from `a` to `i` lies inside the run
/// around `i`.
pub proof fn lemma_run_start_reaches(s: Seq<bool>, i: int, a: int)
    requires
        0 <= a <= i < s.len(),
        forall|k: int| a <= k <= i ==> s[k] == s[i],
    ensures
        run_start(s, i) <= a,
    decreases i - a,
{
    if a < i {
        assert(s[i - 1] == s[i]);
        lemma_run_start_reaches(s, i - 1, a);
    } else {
        lemma_run_start(s, i);
    }
}

/// A block of equal values that reaches from `i` to `b` lies inside the run
/// around `i`.
pub proof fn lemma_run_end_reaches(s: Seq<bool>, i: int, b: int)
    requires
        0 <= i < b <= s.len(),
        forall|k: int| i <= k < b ==> s[k] == s[i],
    ensures
        run_end(s, i) >= b,
    decreases b - i,
{
    if i + 1 < b {
        assert(s[i + 1] == s[i]);
        lemma_run_end_reaches(s, i + 1, b);
    } else {
        lemma_run_end(s, i);
    }
}

/// The bounds that `run_start` and `run_end` give delimit a run.
pub proof fn lemma_run_of(s: Seq<bool>, i: int)
    requires
        0 <= i < s.len(),
    ensures
        is_run(s, run_start(s, i), run_end(s, i)),
        run_start(s, i) <= i < run_end(s, i),
        s[run_start(s, i)] == s[i],
{
    lemma_run_start(s, i);
    lemma_run_end(s, i);
}

/// A run is the run of each of its positions.
pub proof fn lemma_run_unique(s: Seq<bool>, a: int, b: int, i: int)
    requires
        is_run(s, a, b),
        a <= i < b,
    ensures
        run_start(s, i) == a,
        run_end(s, i) == b,
{
    lemma_run_start(s, i);
    lemma_run_end(s, i);
    lemma_run_start_reaches(s, i, a);
    lemma_run_end_reaches(s, i, b);
    if run_start(s, i) < a {
        assert(s[a - 1] == s[i]);
    }
    if run_end(s, i) > b {
        assert(s[b] == s[i]);
    }
}

/// One smoothing pass over `decisions`: every run of `label` shorter than
/// `min_len` is flipped as a whole to the other label. Runs of the other
/// label, and runs of `label` at least `min_len` long, are returned unchanged.
/// Runs are those of the input; the pass does not look again at what it
/// flipped.
pub fn smooth_decisions(decisions: &[bool], min_len: usize, label: bool) -> (result: Vec<bool>)
    ensures
        result@ == smoothed(decisions@, min_len as nat, label),
        result@.len() == decisions@.len(),
        forall|i: int|
            0 <= i < result@.len() && result@[i] == label ==> #[trigger] run_len(result@, i)
                >= min_len,
{
    let mut result: Vec<bool> = slice_to_vec(decisions);
    let n: usize = result.len();
    let mut start: usize = 0;
    while start < n
        invariant
            n == decisions@.len(),
            result@.len() == n,
            start <= n,
            forall|k: int|
                0 <= k < start ==> result@[k] == #[trigger] smoothed(
                    decisions@,
                    min_len as nat,
                    label,
                )[k],
            forall|k: int| start <= k < n ==> result@[k] == decisions@[k],
            start == 0 || start == n || decisions@[start - 1] != label || decisions@[start as int]
                != label,
        decreases n - start,
    {
        if result[start] == label {
            let mut end: usize = start;
            while end < n && result[end] == label
                invariant
                    start <= end <= n,
                    result@.len() == n,
                    forall|k: int| start <= k < end ==> result@[k] == label,
                decreases n - end,
            {
                end += 1;
            }
            proof {
                assert(is_run(decisions@, start as int, end as int));
                assert forall|k: int| start <= k < end implies run_len(decisions@, k) == end
                    - start by {
                    lemma_run_unique(decisions@, start as int, end as int, k);
                }
            }
            if end - start < min_len {
                let ghost before = result@;
                let mut k: usize = start;
                while k < end
                    invariant
                        start <= k <= end <= n,
                        result@.len() == n,
                        before.len() == n,
                        forall|j: int| start <= j < k ==> result@[j] == !label,
                        forall|j: int| 0 <= j < start || k <= j < n ==> result@[j] == before[j],
                    decreases end - k,
                {
                    result.set(k, !label);
                    k += 1;
                }
            }
            start = end;
        } else {
            start += 1;
        }
    }
    proof {
        assert(result@ =~= smoothed(decisions@, min_len as nat, label));
        assert forall|i: int| 0 <= i < result@.len() && result@[i] == label implies run_len(
            result@,
            i,
        ) >= min_len by {
            lemma_smoothed_label_runs(decisions@, min_len as nat, label, i);
        }
    }
    result
}

/// The detector's smoothing: silence runs shorter than [`MIN_SILENCE_RUN`]
/// become voice, then voice runs shorter than [`MIN_VOICE_RUN`] become
/// silence.
pub fn smooth(decisions: &[bool]) -> (result: Vec<bool>)
    ensures
        result@ == smoothed_twice(decisions@),
        result@.len() == decisions@.len(),
        forall|i: int|
            0 <= i < result@.len() && result@[i] ==> #[trigger] run_len(result@, i)
                >= MIN_VOICE_RUN,
        forall|i: int|
            0 <= i < result@.len() && !result@[i] ==> #[trigger] run_len(result@, i)
                >= MIN_SILENCE_RUN || result@.len() < MIN_VOICE_RUN,
{
    let filled: Vec<bool> = smooth_decisions(decisions, MIN_SILENCE_RUN, false);
    let result: Vec<bool> = smooth_decisions(filled.as_slice(), MIN_VOICE_RUN, true);
    proof {
        assert forall|i: int| 0 <= i < result@.len() implies (result@[i] ==> run_len(result@, i)
            >= MIN_VOICE_RUN) && (!result@[i] ==> run_len(result@, i) >= MIN_SILENCE_RUN
            || result@.len() < MIN_VOICE_RUN) by {
            lemma_smoothed_twice_runs(decisions@, i);
        }
    }
    result
}

/// A position that carries `label` after a pass carried it before, in a run
/// that the pass kept whole: the run has the same bounds in the output and is
/// at least `min_len` long. So no run of `label` shorter than `min_len`
/// is left, wherever in the sequence it lies.
pub proof fn lemma_smoothed_label_runs(s: Seq<bool>, min_len: nat, label: bool, i: int)
    requires
        0 <= i < s.len(),
        smoothed(s, min_len, label)[i] == label,
    ensures
        s[i] == label,
        run_start(smoothed(s, min_len, label), i) == run_start(s, i),
        run_end(smoothed(s, min_len, label), i) == run_end(s, i),
        run_len(smoothed(s, min_len, label), i) >= min_len,
{
    let out = smoothed(s, min_len, label);
    let a = run_start(s, i);
    let b = run_end(s, i);
    lemma_run_of(s, i);
    assert(!flips(s, min_len, label, i));
    assert forall|k: int| a <= k < b implies out[k] == label by {
        lemma_run_unique(s, a, b, k);
        assert(!flips(s, min_len, label, k));
    }
    if a > 0 {
        assert(!flips(s, min_len, label, a - 1));
    }
    if b < s.len() {
        assert(!flips(s, min_len, label, b));
    }
    assert(is_run(out, a, b));
    lemma_run_unique(out, a, b, i);
}

/// A position that carries the other label before a pass keeps it, and its
/// run does not shrink.
pub proof fn lemma_smoothed_other_runs(s: Seq<bool>, min_len: nat, label: bool, i: int)
    requires
        0 <= i < s.len(),
        s[i] != label,
    ensures
        smoothed(s, min_len, label)[i] == s[i],
        run_start(smoothed(s, min_len, label), i) <= run_start(s, i),
        run_end(smoothed(s, min_len, label), i) >= run_end(s, i),
        run_len(smoothed(s, min_len, label), i) >= run_len(s, i),
{
    let out = smoothed(s, min_len, label);
    let a = run_start(s, i);
    let b = run_end(s, i);
    lemma_run_of(s, i);
    assert forall|k: int| a <= k < b implies out[k] == out[i] by {
        assert(!flips(s, min_len, label, k));
        assert(!flips(s, min_len, label, i));
    }
    lemma_run_start_reaches(out, i, a);
    lemma_run_end_reaches(out, i, b);
}

/// Two positions joined by a block of equal values lie in the same run.
pub proof fn lemma_same_run(s: Seq<bool>, i: int, j: int)
    requires
        0 <= i <= j < s.len(),
        forall|k: int| i <= k <= j ==> s[k] == s[i],
    ensures
        run_start(s, i) == run_start(s, j),
        run_end(s, i) == run_end(s, j),
{
    lemma_run_of(s, i);
    lemma_run_end_reaches(s, i, j + 1);
    lemma_run_unique(s, run_start(s, i), run_end(s, i), j);
}

/// After both passes no voice run is shorter than [`MIN_VOICE_RUN`], and no
/// silence run is shorter than [`MIN_SILENCE_RUN`] unless the whole sequence
/// is shorter than [`MIN_VOICE_RUN`].
pub proof fn lemma_smoothed_twice_runs(s: Seq<bool>, i: int)
    requires
        0 <= i < s.len(),
    ensures
        smoothed_twice(s).len() == s.len(),
        smoothed_twice(s)[i] ==> run_len(smoothed_twice(s), i) >= MIN_VOICE_RUN,
        !smoothed_twice(s)[i] ==> run_len(smoothed_twice(s), i) >= MIN_SILENCE_RUN || s.len()
            < MIN_VOICE_RUN,
{
    let mid = smoothed(s, MIN_SILENCE_RUN as nat, false);
    let out = smoothed(mid, MIN_VOICE_RUN as nat, true);
    if out[i] {
        lemma_smoothed_label_runs(mid, MIN_VOICE_RUN as nat, true, i);
    } else if !mid[i] {
        lemma_smoothed_label_runs(s, MIN_SILENCE_RUN as nat, false, i);
        lemma_smoothed_other_runs(mid, MIN_VOICE_RUN as nat, true, i);
    } else {
        let a = run_start(mid, i);
        let b = run_end(mid, i);
        lemma_run_of(mid, i);
        assert(flips(mid, MIN_VOICE_RUN as nat, true, i));
        assert forall|k: int| a <= k < b implies !out[k] by {
            lemma_run_unique(mid, a, b, k);
            assert(flips(mid, MIN_VOICE_RUN as nat, true, k));
        }
        if a > 0 {
            let j = a - 1;
            lemma_smoothed_label_runs(s, MIN_SILENCE_RUN as nat, false, j);
            lemma_smoothed_other_runs(mid, MIN_VOICE_RUN as nat, true, j);
            lemma_same_run(out, j, i);
        } else if b < s.len() {
            let j = b;
            lemma_smoothed_label_runs(s, MIN_SILENCE_RUN as nat, false, j);
            lemma_smoothed_other_runs(mid, MIN_VOICE_RUN as nat, true, j);
            lemma_same_run(out, i, j);
        }
    }
}

} // verus!
