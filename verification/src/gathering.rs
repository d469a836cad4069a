//! The gathering quiescence detector: the engine emits connectivity
//! candidates asynchronously with no done-signal, so the emitter polls the
//! buffer length and stops waiting once the length is unchanged from the
//! previous poll and at least one candidate is there, or once the poll
//! ceiling is reached.
use vstd::prelude::*;

verus! {

/// The stop rule of one poll: the buffer did not grow this interval and is
/// not empty.
pub open spec fn quiescent(prev: usize, count: usize) -> bool {
    count > 0 && count == prev
}

/// One decision of the detector, for the caller that owns the polling loop.
pub fn quiescence_step(prev: usize, count: usize) -> (stop: bool)
    ensures
        stop == quiescent(prev, count),
{
    count > 0 && count == prev
}

/// The whole detector run over the buffer lengths observed at successive
/// polls, starting from a previous count and a reported count: how many
/// polls happen and what count is reported at the end.
pub open spec fn quiescence_spec(samples: Seq<usize>, prev: usize, gathered: usize) -> (nat, usize)
    decreases samples.len(),
{
    if samples.len() == 0 {
        (0, gathered)
    } else {
        let c = samples[0];
        if quiescent(prev, c) {
            (1, gathered)
        } else {
            let r = quiescence_spec(samples.drop_first(), c, c);
            ((r.0 + 1) as nat, r.1)
        }
    }
}

/// Run the detector over a recorded sequence of buffer lengths, one per
/// poll: stop early on quiescence, otherwise exhaust the samples.  Returns
/// the number of polls taken and the count reported for diagnostics.
pub fn quiescence_run(samples: &Vec<usize>) -> (r: (usize, usize))
    ensures
        r.0 as nat == quiescence_spec(samples@, 0, 0).0,
        r.1 == quiescence_spec(samples@, 0, 0).1,
{
    let n = samples.len();
    let mut prev: usize = 0;
    let mut gathered: usize = 0;
    let mut i: usize = 0;
    proof {
        assert(samples@.skip(0) =~= samples@);
    }
    while i < n
        invariant
            n == samples@.len(),
            0 <= i <= n,
            quiescence_spec(samples@, 0, 0).0 == i + quiescence_spec(
                samples@.skip(i as int),
                prev,
                gathered,
            ).0,
            quiescence_spec(samples@, 0, 0).1 == quiescence_spec(
                samples@.skip(i as int),
                prev,
                gathered,
            ).1,
        decreases n - i,
    {
        let c = samples[i];
        proof {
            assert(samples@.skip(i as int)[0] == samples@[i as int]);
            assert(samples@.skip(i as int).drop_first() =~= samples@.skip(i as int + 1));
        }
        if c > 0 && c == prev {
            return (i + 1, gathered);
        }
        prev = c;
        gathered = c;
        i += 1;
    }
    proof {
        assert(samples@.skip(i as int) =~= Seq::<usize>::empty());
    }
    (i, gathered)
}

proof fn lemma_quiescence_stop_at(s: Seq<usize>, prev: usize, g: usize, k: int)
    requires
        0 <= k < s.len(),
        forall|j: int| 0 <= j < k ==> !quiescent(if j == 0 { prev } else { s[j - 1] }, #[trigger] s[j]),
        quiescent(if k == 0 { prev } else { s[k - 1] }, s[k]),
    ensures
        quiescence_spec(s, prev, g).0 == k + 1,
        quiescence_spec(s, prev, g).1 == (if k == 0 { g } else { s[k - 1] }),
    decreases k,
{
    if k == 0 {
    } else {
        assert(!quiescent(prev, s[0]));
        let t = s.drop_first();
        assert forall|j: int| 0 <= j < k - 1 implies !quiescent(
            if j == 0 { s[0] } else { t[j - 1] },
            #[trigger] t[j],
        ) by {
            assert(t[j] == s[j + 1]);
            if j > 0 {
                assert(t[j - 1] == s[j]);
            }
        }
        assert(t[k - 1] == s[k]);
        if k - 1 > 0 {
            assert(t[k - 2] == s[k - 1]);
        }
        lemma_quiescence_stop_at(t, s[0], s[0], k - 1);
    }
}

proof fn lemma_quiescence_no_stop(s: Seq<usize>, prev: usize, g: usize)
    requires
        forall|j: int| 0 <= j < s.len() ==> !quiescent(if j == 0 { prev } else { s[j - 1] }, #[trigger] s[j]),
    ensures
        quiescence_spec(s, prev, g).0 == s.len(),
        quiescence_spec(s, prev, g).1 == (if s.len() == 0 { g } else { s.last() }),
    decreases s.len(),
{
    if s.len() > 0 {
        assert(!quiescent(prev, s[0]));
        let t = s.drop_first();
        assert forall|j: int| 0 <= j < t.len() implies !quiescent(
            if j == 0 { s[0] } else { t[j - 1] },
            #[trigger] t[j],
        ) by {
            assert(t[j] == s[j + 1]);
            if j > 0 {
                assert(t[j - 1] == s[j]);
            }
        }
        lemma_quiescence_no_stop(t, s[0], s[0]);
        if t.len() > 0 {
            assert(t.last() == s.last());
        }
    }
}

/// Quiescence detection terminates early on stabilization: when the counts
/// grow strictly up to the poll at position `k` and the next poll sees the
/// same nonzero count, the detector performs exactly `k + 1` polls and
/// reports that count.
pub proof fn lemma_quiescence_stabilizes(s: Seq<usize>, k: int)
    requires
        1 <= k < s.len(),
        forall|j: int| 1 <= j < k ==> #[trigger] s[j] > s[j - 1],
        s[k] == s[k - 1],
        s[k] > 0,
    ensures
        quiescence_spec(s, 0, 0).0 == k + 1,
        quiescence_spec(s, 0, 0).1 == s[k],
{
    assert forall|j: int| 0 <= j < k implies !quiescent(
        if j == 0 { 0usize } else { s[j - 1] },
        #[trigger] s[j],
    ) by {
        if j > 0 {
            assert(s[j] > s[j - 1]);
        }
    }
    lemma_quiescence_stop_at(s, 0, 0, k);
}

/// A buffer that grows on every poll never looks quiescent: the detector
/// exhausts all its polls and reports the last count seen.
pub proof fn lemma_quiescence_exhausts(s: Seq<usize>)
    requires
        forall|j: int| 1 <= j < s.len() ==> #[trigger] s[j] > s[j - 1],
    ensures
        quiescence_spec(s, 0, 0).0 == s.len(),
        quiescence_spec(s, 0, 0).1 == (if s.len() == 0 { 0usize } else { s.last() }),
{
    assert forall|j: int| 0 <= j < s.len() implies !quiescent(
        if j == 0 { 0usize } else { s[j - 1] },
        #[trigger] s[j],
    ) by {
        if j > 0 {
            assert(s[j] > s[j - 1]);
        }
    }
    lemma_quiescence_no_stop(s, 0, 0);
}

} // verus!
