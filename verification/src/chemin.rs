use vstd::prelude::*;

verus! {

/// The lengths of the shortest tours kept so far, one per round in which at
/// least one tour was on the board. `None` until the first such round.
pub struct DeltaLen {
    pub value: Option<Vec<i32>>,
}

/// The history that a `DeltaLen` holds, empty when it holds none.
pub open spec fn history(lon: DeltaLen) -> Seq<i32> {
    match lon.value {
        Some(v) => v@,
        None => Seq::empty(),
    }
}

impl DeltaLen {
    /// The resource as it stands before any round: no history.
    pub fn new() -> (lon: DeltaLen)
        ensures
            lon.value is None,
    {
        DeltaLen { value: None }
    }
}

/// The history is the stored vector itself, and empty when none is stored.
pub proof fn lemma_history(lon: DeltaLen)
    ensures
        lon.value matches Some(v) ==> history(lon) == v@,
        lon.value is None ==> history(lon) == Seq::<i32>::empty(),
{
}

/// The smallest element of a non-empty sequence.
pub open spec fn seq_min(s: Seq<i32>) -> int
    decreases s.len(),
{
    if s.len() <= 1 {
        s[0] as int
    } else {
        let m = seq_min(s.drop_last());
        if s.last() < m {
            s.last() as int
        } else {
            m
        }
    }
}

/// `seq_min` is a lower bound of the sequence and is one of its elements.
pub proof fn lemma_seq_min(s: Seq<i32>)
    requires
        s.len() > 0,
    ensures
        forall|i: int| 0 <= i < s.len() ==> seq_min(s) <= #[trigger] s[i],
        exists|i: int| 0 <= i < s.len() && seq_min(s) == #[trigger] s[i],
    decreases s.len(),
{
    if s.len() > 1 {
        let t = s.drop_last();
        lemma_seq_min(t);
        assert forall|i: int| 0 <= i < s.len() implies seq_min(s) <= #[trigger] s[i] by {
            if i < s.len() - 1 {
                assert(s[i] == t[i]);
            }
        }
        if s.last() < seq_min(t) {
            assert(seq_min(s) == s[s.len() - 1]);
        } else {
            let k = choose|k: int| 0 <= k < t.len() && seq_min(t) == #[trigger] t[k];
            assert(seq_min(s) == s[k]);
        }
    } else {
        assert(seq_min(s) == s[0]);
    }
}

/// Given the lengths of the tours on the board, marks which tours stay: those
/// whose length equals the shortest length. When there is at least one tour,
/// the shortest length is appended to the history in `lon`, which is created
/// on its first use. With no tour on the board nothing changes.
pub fn only_keep_shortest(dists: &Vec<i32>, lon: &mut DeltaLen) -> (keep: Vec<bool>)
    ensures
        keep.len() == dists.len(),
        dists.len() == 0 ==> *final(lon) == *old(lon),
        dists.len() > 0 ==> {
            &&& forall|i: int| 0 <= i < dists.len() ==> (#[trigger] keep[i] <==> dists[i] == seq_min(dists@))
            &&& exists|i: int| 0 <= i < dists.len() && #[trigger] keep[i]
            &&& forall|i: int, j: int|
                0 <= i < dists.len() && 0 <= j < dists.len() && #[trigger] keep[i] ==> dists[i] <= #[trigger] dists[j]
            &&& final(lon).value is Some
            &&& history(*final(lon)) == history(*old(lon)).push(seq_min(dists@) as i32)
            &&& final(lon).value->Some_0@ == (if old(lon).value is Some {
                old(lon).value->Some_0@
            } else {
                Seq::<i32>::empty()
            }).push(final(lon).value->Some_0@.last())
            &&& forall|i: int| 0 <= i < dists.len() ==> final(lon).value->Some_0@.last() <= #[trigger] dists[i]
            &&& exists|i: int| 0 <= i < dists.len() && #[trigger] dists[i] == final(lon).value->Some_0@.last()
            &&& forall|i: int| 0 <= i < dists.len() ==> (#[trigger] keep[i] <==> dists[i] == final(lon).value->Some_0@.last())
        },
{
    let n = dists.len();
    if n == 0 {
        return Vec::new();
    }
    let mut m: i32 = dists[0];
    let mut i: usize = 1;
    while i < n
        invariant
            n == dists.len(),
            1 <= i <= n,
            m == seq_min(dists@.take(i as int)),
        decreases n - i,
    {
        assert(dists@.take(i as int + 1).drop_last() == dists@.take(i as int));
        if dists[i] < m {
            m = dists[i];
        }
        i = i + 1;
    }
    assert(dists@.take(n as int) == dists@);
    let mut keep: Vec<bool> = Vec::new();
    let mut j: usize = 0;
    while j < n
        invariant
            n == dists.len(),
            j <= n,
            m == seq_min(dists@),
            keep.len() == j,
            forall|k: int| 0 <= k < j ==> (#[trigger] keep[k] <==> dists[k] == m),
        decreases n - j,
    {
        keep.push(dists[j] == m);
        j = j + 1;
    }
    proof {
        lemma_seq_min(dists@);
    }
    let mut hist: Vec<i32> = match lon.value.take() {
        Some(v) => v,
        None => Vec::new(),
    };
    hist.push(m);
    lon.value = Some(hist);
    proof {
        let k = choose|k: int| 0 <= k < dists.len() && seq_min(dists@) == #[trigger] dists[k];
        assert(keep[k]);
    }
    keep
}

} // verus!
