//! The assets a packing list (ST 2067-2) covers: every CPL, then every track
//! file.
use vstd::prelude::*;
use crate::text::{chars_of, string_of};
use crate::MxfTrackFile;

verus! {

/// A CPL written into the package, with the SHA-1 digest (base64) and size
/// read back off its file; a digest or size that could not be read is empty
/// or zero.
#[derive(Debug, Clone)]
pub struct HashedCpl {
    pub uuid: String,
    pub hash: String,
    pub size: u64,
}

/// One asset of a packing list.
#[derive(Debug, Clone)]
pub struct PklAsset {
    pub id: String,
    pub hash: String,
    pub size: u64,
    pub asset_type: String,
}

pub open spec fn pkl_asset_views(v: Seq<PklAsset>) -> Seq<(Seq<char>, Seq<char>, u64, Seq<char>)> {
    v.map_values(|a: PklAsset| (a.id@, a.hash@, a.size, a.asset_type@))
}

/// A CPL as a packing list asset.
pub open spec fn cpl_asset(c: HashedCpl) -> (Seq<char>, Seq<char>, u64, Seq<char>) {
    (c.uuid@, c.hash@, c.size, "text/xml"@)
}

/// A track file as a packing list asset.
pub open spec fn track_asset(t: MxfTrackFile) -> (Seq<char>, Seq<char>, u64, Seq<char>) {
    (t.uuid@, t.hash@, t.size, "application/mxf"@)
}

/// The packing list's assets: each CPL as `text/xml`, then each track file
/// as `application/mxf`, in the order given.
pub open spec fn pkl_assets_spec(cpls: Seq<HashedCpl>, tracks: Seq<MxfTrackFile>) -> Seq<
    (Seq<char>, Seq<char>, u64, Seq<char>),
> {
    cpls.map_values(|c: HashedCpl| cpl_asset(c)) + tracks.map_values(|t: MxfTrackFile| track_asset(t))
}

/// The assets of a packing list covering `cpls` and `track_files`.
pub fn pkl_assets(cpls: &Vec<HashedCpl>, track_files: &Vec<MxfTrackFile>) -> (r: Vec<PklAsset>)
    ensures
        pkl_asset_views(r@) == pkl_assets_spec(cpls@, track_files@),
{
    let mut out: Vec<PklAsset> = Vec::new();
    let mut i: usize = 0;
    while i < cpls.len()
        invariant
            i <= cpls.len(),
            out@.len() == i,
            forall|k: int| 0 <= k < i ==> #[trigger] pkl_asset_views(out@)[k] == cpl_asset(cpls@[k]),
        decreases cpls.len() - i,
    {
        let c = &cpls[i];
        let ghost before = out@;
        out.push(
            PklAsset {
                id: c.uuid.clone(),
                hash: c.hash.clone(),
                size: c.size,
                asset_type: string_of(&chars_of("text/xml")),
            },
        );
        assert(pkl_asset_views(out@)[i as int] == cpl_asset(cpls@[i as int]));
        assert forall|k: int| 0 <= k < i + 1 implies #[trigger] pkl_asset_views(out@)[k] == cpl_asset(cpls@[k]) by {
            if k < i {
                assert(pkl_asset_views(out@)[k] == pkl_asset_views(before)[k]);
            }
        }
        i += 1;
    }
    let ghost head = pkl_asset_views(out@);
    assert(head =~= cpls@.map_values(|c: HashedCpl| cpl_asset(c)));
    let mut j: usize = 0;
    while j < track_files.len()
        invariant
            j <= track_files.len(),
            out@.len() == head.len() + j,
            forall|k: int| 0 <= k < head.len() ==> #[trigger] pkl_asset_views(out@)[k] == head[k],
            forall|k: int| 0 <= k < j ==> #[trigger] pkl_asset_views(out@)[head.len() + k] == track_asset(track_files@[k]),
        decreases track_files.len() - j,
    {
        let t = &track_files[j];
        let ghost before = out@;
        out.push(
            PklAsset {
                id: t.uuid.clone(),
                hash: t.hash.clone(),
                size: t.size,
                asset_type: string_of(&chars_of("application/mxf")),
            },
        );
        assert(pkl_asset_views(out@)[head.len() + j] == track_asset(track_files@[j as int]));
        assert forall|k: int| 0 <= k < head.len() implies #[trigger] pkl_asset_views(out@)[k] == head[k] by {
            assert(pkl_asset_views(out@)[k] == pkl_asset_views(before)[k]);
        }
        assert forall|k: int| 0 <= k < j + 1 implies #[trigger] pkl_asset_views(out@)[head.len() + k] == track_asset(track_files@[k]) by {
            if k < j {
                assert(pkl_asset_views(out@)[head.len() + k] == pkl_asset_views(before)[head.len() + k]);
            }
        }
        j += 1;
    }
    let ghost want = pkl_assets_spec(cpls@, track_files@);
    let ghost tail = track_files@.map_values(|t: MxfTrackFile| track_asset(t));
    assert(want == head + tail);
    assert forall|k: int| 0 <= k < want.len() implies #[trigger] pkl_asset_views(out@)[k] == want[k] by {
        if k < head.len() {
        } else {
            assert(pkl_asset_views(out@)[head.len() + (k - head.len())] == track_asset(
                track_files@[k - head.len()],
            ));
        }
    }
    assert(pkl_asset_views(out@) =~= want);
    out
}

} // verus!
