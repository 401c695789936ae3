//! The detection adapter's own layer: detections as plain values and the
//! confidence filter that decides which of them count as faces. The detector
//! backends themselves are external collaborators; they hand this layer a
//! list of raw detections.

use crate::geometry::Rect;
use vstd::prelude::*;

verus! {

/// One candidate face: a bounding rectangle in detection space plus a
/// confidence score in thousandths.
#[derive(Clone, Copy, Debug, PartialEq, Eq, Structural)]
pub struct Detection {
    pub rect: Rect,
    pub confidence_milli: u32,
}

impl Detection {
    /// True when the detection meets the threshold and counts as a face.
    pub open spec fn spec_accepted(self, threshold_milli: u32) -> bool {
        self.confidence_milli >= threshold_milli
    }
}

/// The subsequence of detections at or above the threshold, in their
/// original order.
pub open spec fn spec_filtered(dets: Seq<Detection>, threshold_milli: u32) -> Seq<Detection>
    decreases dets.len(),
{
    if dets.len() == 0 {
        Seq::empty()
    } else {
        let rest = spec_filtered(dets.drop_last(), threshold_milli);
        if dets.last().spec_accepted(threshold_milli) {
            rest.push(dets.last())
        } else {
            rest
        }
    }
}

/// Keeps exactly the detections whose confidence is at or above the
/// threshold, preserving their order.
pub fn filter_detections(dets: &Vec<Detection>, threshold_milli: u32) -> (kept: Vec<Detection>)
    ensures
        kept@ == spec_filtered(dets@, threshold_milli),
        forall|i: int|
            0 <= i < kept@.len() ==> #[trigger] kept@[i].spec_accepted(threshold_milli),
{
    let mut kept: Vec<Detection> = Vec::new();
    let n: usize = dets.len();
    let mut i: usize = 0;
    while i < n
        invariant
            i <= n,
            n == dets@.len(),
            kept@ == spec_filtered(dets@.take(i as int), threshold_milli),
            forall|j: int|
                0 <= j < kept@.len() ==> #[trigger] kept@[j].spec_accepted(threshold_milli),
        decreases n - i,
    {
        let d = dets[i];
        proof {
            assert(dets@.take(i + 1).drop_last() =~= dets@.take(i as int));
            assert(dets@.take(i + 1).last() == dets@[i as int]);
        }
        if d.confidence_milli >= threshold_milli {
            kept.push(d);
        }
        i = i + 1;
    }
    proof {
        assert(dets@.take(n as int) =~= dets@);
    }
    kept
}

/// Filtering never invents a detection: everything kept was in the input,
/// and everything in the input that meets the threshold is kept, in order.
pub proof fn lemma_filtered_sound(dets: Seq<Detection>, threshold_milli: u32)
    ensures
        spec_filtered(dets, threshold_milli).len() <= dets.len(),
        forall|i: int|
            0 <= i < spec_filtered(dets, threshold_milli).len()
                ==> dets.contains(#[trigger] spec_filtered(dets, threshold_milli)[i]),
        (forall|i: int|
            0 <= i < dets.len() ==> !(#[trigger] dets[i]).spec_accepted(threshold_milli))
            ==> spec_filtered(dets, threshold_milli) == Seq::<Detection>::empty(),
    decreases dets.len(),
{
    if dets.len() > 0 {
        lemma_filtered_sound(dets.drop_last(), threshold_milli);
        assert forall|i: int|
            0 <= i < spec_filtered(dets, threshold_milli).len()
            implies dets.contains(#[trigger] spec_filtered(dets, threshold_milli)[i]) by {
            let f = spec_filtered(dets, threshold_milli);
            let rest = spec_filtered(dets.drop_last(), threshold_milli);
            if i < rest.len() {
                assert(dets.drop_last().contains(rest[i]));
                let j = choose|j: int| 0 <= j < dets.drop_last().len() && dets.drop_last()[j] == rest[i];
                assert(dets[j] == f[i]);
            } else {
                assert(f[i] == dets.last());
                assert(dets[dets.len() - 1] == dets.last());
            }
        }
    }
}

} // verus!
