//! Which `--video` inputs are a single still image held for a duration.
use vstd::prelude::*;
use crate::text::{chars_of, eq_str, to_lowercase, unicode_lower};

verus! {

/// Image extensions `--video` accepts as a still. A file with one of these is a
/// still input and needs a hold duration; anything else is a video or a
/// codestream directory. ffmpeg decodes the still, so this is wider than the
/// formats grok's own image loader reads.
pub open spec fn still_extensions() -> Seq<Seq<char>> {
    seq!["png"@, "jpg"@, "jpeg"@, "tif"@, "tiff"@, "bmp"@, "dpx"@, "exr"@]
}

pub open spec fn is_still_extension(l: Seq<char>) -> bool {
    l == "png"@ || l == "jpg"@ || l == "jpeg"@ || l == "tif"@ || l == "tiff"@ || l == "bmp"@
        || l == "dpx"@ || l == "exr"@
}

pub proof fn lemma_still_extensions(l: Seq<char>)
    ensures
        is_still_extension(l) <==> still_extensions().contains(l),
{
    let s = still_extensions();
    if is_still_extension(l) {
        if l == "png"@ {
            assert(s[0] == l);
        } else if l == "jpg"@ {
            assert(s[1] == l);
        } else if l == "jpeg"@ {
            assert(s[2] == l);
        } else if l == "tif"@ {
            assert(s[3] == l);
        } else if l == "tiff"@ {
            assert(s[4] == l);
        } else if l == "bmp"@ {
            assert(s[5] == l);
        } else if l == "dpx"@ {
            assert(s[6] == l);
        } else {
            assert(s[7] == l);
        }
    }
}

/// Is this a single image file the encoder can read, rather than a video or a
/// directory of frames? `is_file` says whether the path is a regular file and
/// `extension` is its extension, where it has one that is valid text.
pub fn is_still_image(is_file: bool, extension: Option<&str>) -> (r: bool)
    ensures
        r == (is_file && match extension {
            Some(e) => still_extensions().contains(unicode_lower(e@)),
            None => false,
        }),
{
    if !is_file {
        return false;
    }
    match extension {
        Some(e) => {
            let l = chars_of(to_lowercase(e).as_str());
            proof {
                lemma_still_extensions(l@);
            }
            eq_str(&l, "png") || eq_str(&l, "jpg") || eq_str(&l, "jpeg") || eq_str(&l, "tif")
                || eq_str(&l, "tiff") || eq_str(&l, "bmp") || eq_str(&l, "dpx") || eq_str(&l, "exr")
        },
        None => false,
    }
}

/// The frames of a hold that have to be encoded, among the first `n`: frame
/// 0, then each frame whose burnt-in cues differ from the frame before.
pub open spec fn change_points(active: Seq<Seq<u64>>, n: int) -> Seq<u64>
    decreases n,
{
    if n <= 1 {
        seq![0u64]
    } else if active[n - 1] != active[n - 2] {
        change_points(active, n - 1).push((n - 1) as u64)
    } else {
        change_points(active, n - 1)
    }
}

fn same_cues(a: &Vec<u64>, b: &Vec<u64>) -> (r: bool)
    ensures
        r == (a@ == b@),
{
    if a.len() != b.len() {
        return false;
    }
    let mut i: usize = 0;
    while i < a.len()
        invariant
            i <= a.len(),
            a.len() == b.len(),
            forall|k: int| 0 <= k < i ==> a@[k] == b@[k],
        decreases a.len() - i,
    {
        if a[i] != b[i] {
            return false;
        }
        i += 1;
    }
    assert(a@ =~= b@);
    true
}

/// Frame indices of a hold that have to be encoded: the first frame, plus
/// every frame where the burnt-in cues change. `burn` holds, for each frame of
/// the hold, the cues burnt into it; without a burn every frame is identical,
/// so that is frame 0 alone.
pub fn distinct_frames(burn: Option<&Vec<Vec<u64>>>, frames: u64) -> (r: Vec<u64>)
    requires
        burn matches Some(a) ==> a@.len() >= frames,
    ensures
        match burn {
            Some(a) => r@ == change_points(a@.map_values(|c: Vec<u64>| c@), frames as int),
            None => r@ == seq![0u64],
        },
{
    let mut encoded: Vec<u64> = Vec::new();
    encoded.push(0);
    let active = match burn {
        Some(a) => a,
        None => {
            assert(encoded@ =~= seq![0u64]);
            return encoded;
        },
    };
    let ghost cues = active@.map_values(|c: Vec<u64>| c@);
    assert(encoded@ =~= change_points(cues, 1));
    let n: usize = active.len();
    let mut index: u64 = 1;
    while index < frames
        invariant
            n == active@.len(),
            1 <= index,
            index <= frames || frames == 0,
            frames == 0 ==> index == 1,
            active@.len() >= frames,
            cues == active@.map_values(|c: Vec<u64>| c@),
            encoded@ == change_points(cues, index as int),
        decreases frames - index,
    {
        assert(index < n);
        let i: usize = index as usize;
        let changed = !same_cues(&active[i], &active[i - 1]);
        proof {
            assert(cues.len() == active@.len());
            assert(cues[i as int] == active@[i as int]@);
            assert(cues[i - 1] == active@[i - 1]@);
        }
        if changed {
            encoded.push(index);
        }
        index += 1;
    }
    proof {
        if frames == 0 {
            assert(change_points(cues, 0) == change_points(cues, 1));
        }
        assert(encoded@ == change_points(cues, frames as int));
        assert(cues =~= active@.map_values(|c: Vec<u64>| c@));
    }
    encoded
}

proof fn lemma_change_points_start(active: Seq<Seq<u64>>, n: int)
    ensures
        change_points(active, n).len() >= 1,
        change_points(active, n)[0] == 0,
    decreases n,
{
    if n > 1 {
        lemma_change_points_start(active, n - 1);
    }
}

/// The frames a hold encodes start at frame 0 and rise, each within the
/// hold; every frame left out carries the same cues as the frame before it,
/// so linking it to the last encoded frame shows the same picture.
pub proof fn law_left_out_frames_repeat(active: Seq<Seq<u64>>, n: int)
    requires
        1 <= n <= active.len(),
        n <= u64::MAX,
    ensures
        change_points(active, n)[0] == 0,
        forall|i: int, j: int|
            0 <= i < j < change_points(active, n).len() ==> #[trigger] change_points(active, n)[i]
                < #[trigger] change_points(active, n)[j],
        forall|i: int| 0 <= i < change_points(active, n).len() ==> #[trigger] change_points(active, n)[i] < n,
        forall|f: int|
            1 <= f < n && !change_points(active, n).contains(f as u64) ==> #[trigger] active[f] == active[f - 1],
    decreases n,
{
    lemma_change_points_start(active, n);
    if n > 1 {
        law_left_out_frames_repeat(active, n - 1);
        lemma_change_points_start(active, n - 1);
        let p = change_points(active, n - 1);
        if active[n - 1] != active[n - 2] {
            let q = p.push((n - 1) as u64);
            assert(q[0] == p[0]);
            assert forall|f: int| 1 <= f < n && !q.contains(f as u64) implies #[trigger] active[f] == active[f - 1] by {
                if f == n - 1 {
                    assert(q[p.len() as int] == (n - 1) as u64);
                } else if p.contains(f as u64) {
                    let k = choose|k: int| 0 <= k < p.len() && p[k] == f as u64;
                    assert(q[k] == f as u64);
                }
            }
        } else {
            assert forall|f: int| 1 <= f < n && !p.contains(f as u64) implies #[trigger] active[f] == active[f - 1] by {
            }
        }
    }
}

} // verus!
