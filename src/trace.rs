use vstd::prelude::*;
use crate::count::CountsAtTime;

verus! {

/// Target number of snapshots in a written trace.
pub const OUTPUT_ROWS: usize = 1000;

/// Snapshots kept at each end of a long trace.
pub const KEPT_AT_ENDS: usize = 100;

/// Whether the snapshot at 1-based `position` of a summary of `len`
/// snapshots is written: all are when `len <= 2 * OUTPUT_ROWS`; otherwise
/// the first and last ones, and every `len / OUTPUT_ROWS`-th in between.
pub open spec fn kept(position: int, len: int) -> bool {
    !(len > 2 * OUTPUT_ROWS && position > KEPT_AT_ENDS && position < len - KEPT_AT_ENDS
        && position % (len / OUTPUT_ROWS as int) != 0)
}

pub fn keep_snapshot(position: usize, len: usize) -> (r: bool)
    ensures
        r == kept(position as int, len as int),
{
    if len > 2 * OUTPUT_ROWS && position > KEPT_AT_ENDS && position < len - KEPT_AT_ENDS {
        let every = len / OUTPUT_ROWS;
        position % every == 0
    } else {
        true
    }
}

/// The snapshots among the first `k` of `s` that a trace keeps, in order.
pub open spec fn subsampled(s: Seq<CountsAtTime>, k: int) -> Seq<CountsAtTime>
    decreases k,
{
    if k <= 0 {
        Seq::<CountsAtTime>::empty()
    } else {
        subsampled(s, k - 1) + if kept(k, s.len() as int) { seq![s[k - 1]] } else { Seq::<CountsAtTime>::empty() }
    }
}

/// The snapshots that a trace file holds.
pub fn subsample(summary: &Vec<CountsAtTime>) -> (r: Vec<CountsAtTime>)
    ensures
        r@ == subsampled(summary@, summary@.len() as int),
        summary@.len() <= 2 * OUTPUT_ROWS ==> r@ == summary@,
{
    let len = summary.len();
    let mut out: Vec<CountsAtTime> = Vec::new();
    let mut i: usize = 0;
    while i < len
        invariant
            len == summary@.len(),
            i <= len,
            out@ == subsampled(summary@, i as int),
            len <= 2 * OUTPUT_ROWS ==> out@ =~= summary@.subrange(0, i as int),
        decreases len - i,
    {
        if keep_snapshot(i + 1, len) {
            out.push(summary[i]);
        }
        proof {
            if len <= 2 * OUTPUT_ROWS {
                assert(out@ =~= summary@.subrange(0, i + 1));
            }
        }
        i += 1;
    }
    proof {
        if len <= 2 * OUTPUT_ROWS {
            assert(summary@.subrange(0, len as int) =~= summary@);
        }
    }
    out
}

} // verus!
