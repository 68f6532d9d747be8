use vstd::prelude::*;

verus! {

/// Index of the first frame, at `k` or later, that holds a sample.
pub open spec fn first_started(frames: Seq<Option<Vec<i32>>>, k: int) -> Option<int>
    decreases frames.len() - k,
{
    if k < 0 || k >= frames.len() {
        None
    } else if frames[k] is Some {
        Some(k)
    } else {
        first_started(frames, k + 1)
    }
}

/// The values written for frames `k..` once a recording with `channels` channels has
/// started: each frame's values in turn, and silence for a frame without a sample.
pub open spec fn pcm_from(frames: Seq<Option<Vec<i32>>>, k: int, channels: nat) -> Seq<i32>
    decreases frames.len() - k,
{
    if k < 0 || k >= frames.len() {
        seq![]
    } else {
        match frames[k] {
            Some(v) => v@ + pcm_from(frames, k + 1, channels),
            None => Seq::new(channels, |i: int| 0i32) + pcm_from(frames, k + 1, channels),
        }
    }
}

/// A recording of combined frames: it starts at the first frame that holds a sample, whose
/// size gives the channel count, and from there a frame without a sample is silence.
/// Returns the channel count and the interleaved values, or `None` if no frame holds a
/// sample.
pub fn interleave_frames(frames: &Vec<Option<Vec<i32>>>) -> (r: Option<(usize, Vec<i32>)>)
    ensures
        match first_started(frames@, 0) {
            None => r is None,
            Some(start) => r matches Some((channels, data)) && channels == frames@[start]->0@.len()
                && data@ == pcm_from(frames@, start, channels as nat),
        },
{
    let mut k: usize = 0;
    while k < frames.len() && frames[k].is_none()
        invariant
            k <= frames@.len(),
            first_started(frames@, 0) == first_started(frames@, k as int),
        decreases frames@.len() - k,
    {
        k += 1;
    }
    if k >= frames.len() {
        return None;
    }
    let start = k;
    let channels = match &frames[start] {
        Some(v) => v.len(),
        None => 0,
    };
    let mut data: Vec<i32> = Vec::new();
    while k < frames.len()
        invariant
            start <= k <= frames@.len(),
            data@ + pcm_from(frames@, k as int, channels as nat) == pcm_from(
                frames@,
                start as int,
                channels as nat,
            ),
        decreases frames@.len() - k,
    {
        let ghost before = data@;
        match &frames[k] {
            Some(v) => {
                let mut j: usize = 0;
                while j < v.len()
                    invariant
                        j <= v@.len(),
                        data@ == before + v@.subrange(0, j as int),
                    decreases v@.len() - j,
                {
                    data.push(v[j]);
                    j += 1;
                    assert(data@ =~= before + v@.subrange(0, j as int));
                }
                assert(v@.subrange(0, v@.len() as int) =~= v@);
                assert(before + v@ + pcm_from(frames@, k + 1, channels as nat) =~= before + (v@
                    + pcm_from(frames@, k + 1, channels as nat)));
            },
            None => {
                let mut j: usize = 0;
                while j < channels
                    invariant
                        j <= channels,
                        data@ == before + Seq::new(j as nat, |i: int| 0i32),
                    decreases channels - j,
                {
                    data.push(0);
                    j += 1;
                    assert(data@ =~= before + Seq::new(j as nat, |i: int| 0i32));
                }
                let ghost zeros = Seq::new(channels as nat, |i: int| 0i32);
                assert(before + zeros + pcm_from(frames@, k + 1, channels as nat) =~= before + (
                zeros + pcm_from(frames@, k + 1, channels as nat)));
            },
        }
        k += 1;
    }
    assert(data@ + pcm_from(frames@, k as int, channels as nat) =~= data@);
    Some((channels, data))
}

} // verus!
