//! Edit decision list: the keep ranges of the source that make up the output.
use vstd::prelude::*;

use crate::ranges::{complement_within, in_ranges, ranges_total, separated};

verus! {

/// One kept piece of the source timeline.
#[derive(Clone, Copy, Debug, PartialEq, Eq)]
pub struct EdlClip {
    pub source_start: u64,
    pub source_end: u64,
}

/// Edit decision list: the export source of truth.
#[derive(Clone, Debug)]
pub struct Edl {
    pub media_path: String,
    pub source_duration: u64,
    pub video_track: Vec<EdlClip>,
    pub output_duration: u64,
    pub removed_duration: u64,
}

/// The `(start, end)` pairs of clips.
pub open spec fn clip_pairs(v: Seq<EdlClip>) -> Seq<(u64, u64)> {
    v.map_values(|c: EdlClip| (c.source_start, c.source_end))
}

/// `edl` is the edit decision list of a source of `duration` ms with `removes`
/// cut out: separated keep ranges within the duration covering exactly the
/// instants no remove span covers, and durations that add up.
pub open spec fn edl_removes(edl: Edl, duration: u64, removes: Seq<(u64, u64)>) -> bool {
    &&& edl.source_duration == duration
    &&& separated(edl.spec_keep())
    &&& forall|i: int| 0 <= i < edl.spec_keep().len() ==> #[trigger] edl.spec_keep()[i].1 <= duration
    &&& forall|t: int| 0 <= t < duration ==> (in_ranges(edl.spec_keep(), t) <==> !in_ranges(removes, t))
    &&& edl.output_duration == ranges_total(edl.spec_keep())
    &&& edl.output_duration + edl.removed_duration == duration
}

impl Edl {
    /// The keep ranges of the EDL, in track order.
    pub open spec fn spec_keep(&self) -> Seq<(u64, u64)> {
        clip_pairs(self.video_track@)
    }

    /// Build the EDL of a source of `duration` ms with the given spans removed.
    /// The keep ranges are separated, lie within the duration and cover exactly
    /// the instants that no remove span covers.
    pub fn from_remove_spans(media_path: &str, duration: u64, removes: &Vec<(u64, u64)>) -> (edl: Edl)
        ensures
            edl.media_path@ == media_path@,
            edl_removes(edl, duration, removes@),
    {
        let keep = complement_within(duration, removes);
        let mut track: Vec<EdlClip> = Vec::new();
        let mut total: u64 = 0;
        let mut i: usize = 0;
        proof {
            lemma_total_le_last(keep@);
        }
        while i < keep.len()
            invariant
                0 <= i <= keep@.len(),
                separated(keep@),
                forall|m: int| 0 <= m < keep@.len() ==> #[trigger] keep@[m].1 <= duration,
                clip_pairs(track@) == keep@.take(i as int),
                total == ranges_total(keep@.take(i as int)),
            decreases keep@.len() - i,
        {
            proof {
                lemma_total_le_last(keep@.take(i as int + 1));
                assert(keep@.take(i as int + 1).drop_last() =~= keep@.take(i as int));
                assert(keep@.take(i as int + 1).last() == keep@[i as int]);
            }
            let (s, e) = keep[i];
            track.push(EdlClip { source_start: s, source_end: e });
            total = total + (e - s);
            proof {
                assert(clip_pairs(track@) =~= keep@.take(i as int + 1));
            }
            i = i + 1;
        }
        proof {
            assert(keep@.take(keep@.len() as int) =~= keep@);
            lemma_total_le_last(keep@);
        }
        Edl {
            media_path: String::from_str(media_path),
            source_duration: duration,
            video_track: track,
            output_duration: total,
            removed_duration: duration - total,
        }
    }

    /// The keep ranges `(start, end)` of the EDL in track order.
    pub fn keep_ranges(&self) -> (r: Vec<(u64, u64)>)
        ensures
            r@ == self.spec_keep(),
    {
        let mut r: Vec<(u64, u64)> = Vec::new();
        let mut i: usize = 0;
        while i < self.video_track.len()
            invariant
                0 <= i <= self.video_track@.len(),
                r@ == clip_pairs(self.video_track@.take(i as int)),
            decreases self.video_track@.len() - i,
        {
            let c = self.video_track[i];
            r.push((c.source_start, c.source_end));
            proof {
                assert(clip_pairs(self.video_track@.take(i as int + 1)) =~= clip_pairs(
                    self.video_track@.take(i as int),
                ).push((c.source_start, c.source_end)));
            }
            i = i + 1;
        }
        proof {
            assert(self.video_track@.take(self.video_track@.len() as int) =~= self.video_track@);
        }
        r
    }
}

/// Separated ranges within `[0, limit]` add up to at most the end of the last one.
pub proof fn lemma_total_le_last(r: Seq<(u64, u64)>)
    requires
        separated(r),
    ensures
        r.len() == 0 ==> ranges_total(r) == 0,
        r.len() > 0 ==> 0 <= ranges_total(r) <= r.last().1,
    decreases r.len(),
{
    if r.len() > 0 {
        let p = r.drop_last();
        assert(separated(p));
        lemma_total_le_last(p);
        if p.len() > 0 {
            assert(p.last() == r[r.len() - 2]);
            assert(r[r.len() - 2].1 < r[r.len() - 1].0);
        }
    }
}

} // verus!
