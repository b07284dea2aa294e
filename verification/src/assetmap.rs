//! The assets an ASSETMAP (ST 429-9) maps: the packing list, every CPL and
//! every track file, each with the file name it is found under.
use vstd::prelude::*;
use crate::cpl::file_name_of;
use crate::imp::CplEntry;
use crate::text::{chars_of, last_piece_chars, push_str, string_of};
use crate::MxfTrackFile;

verus! {

/// One asset of an asset map: its id, the file name it is found under, and
/// whether it is the packing list.
#[derive(Debug, Clone)]
pub struct AssetMapAsset {
    pub id: String,
    pub path: String,
    pub packing_list: bool,
}

pub open spec fn asset_views(v: Seq<AssetMapAsset>) -> Seq<(Seq<char>, Seq<char>, bool)> {
    v.map_values(|a: AssetMapAsset| (a.id@, a.path@, a.packing_list))
}

/// The packing list's own entry.
pub open spec fn pkl_entry(pkl_uuid: Seq<char>) -> (Seq<char>, Seq<char>, bool) {
    (pkl_uuid, "PKL_"@ + pkl_uuid + ".xml"@, true)
}

pub open spec fn cpl_entry(c: CplEntry) -> (Seq<char>, Seq<char>, bool) {
    (c.uuid@, file_name_of(c.path@), false)
}

pub open spec fn track_entry(t: MxfTrackFile) -> (Seq<char>, Seq<char>, bool) {
    (t.uuid@, file_name_of(t.path@), false)
}

/// The asset map's assets: the packing list, then each CPL, then each track
/// file, in the order given.
pub open spec fn assetmap_assets_spec(pkl_uuid: Seq<char>, cpls: Seq<CplEntry>, tracks: Seq<MxfTrackFile>) -> Seq<
    (Seq<char>, Seq<char>, bool),
> {
    seq![pkl_entry(pkl_uuid)] + cpls.map_values(|c: CplEntry| cpl_entry(c)) + tracks.map_values(
        |t: MxfTrackFile| track_entry(t),
    )
}

fn file_name(path: &str) -> (r: String)
    ensures
        r@ == file_name_of(path@),
{
    let slash = chars_of("/");
    proof {
        reveal_strlit("/");
    }
    string_of(&last_piece_chars(&chars_of(path), &slash))
}

/// The assets of an asset map over the packing list `pkl_uuid`, `cpls` and
/// `track_files`.
pub fn assetmap_assets(pkl_uuid: &str, cpls: &Vec<CplEntry>, track_files: &Vec<MxfTrackFile>) -> (r: Vec<
    AssetMapAsset,
>)
    ensures
        asset_views(r@) == assetmap_assets_spec(pkl_uuid@, cpls@, track_files@),
{
    let mut p = chars_of("PKL_");
    push_str(&mut p, pkl_uuid);
    push_str(&mut p, ".xml");
    let mut out: Vec<AssetMapAsset> = Vec::new();
    out.push(AssetMapAsset { id: string_of(&chars_of(pkl_uuid)), path: string_of(&p), packing_list: true });
    let mut i: usize = 0;
    while i < cpls.len()
        invariant
            i <= cpls.len(),
            out@.len() == 1 + i,
            asset_views(out@)[0] == pkl_entry(pkl_uuid@),
            forall|k: int| 0 <= k < i ==> #[trigger] asset_views(out@)[1 + k] == cpl_entry(cpls@[k]),
        decreases cpls.len() - i,
    {
        let c = &cpls[i];
        let ghost before = out@;
        out.push(AssetMapAsset { id: c.uuid.clone(), path: file_name(c.path.as_str()), packing_list: false });
        assert(asset_views(out@)[0] == asset_views(before)[0]);
        assert forall|k: int| 0 <= k < i + 1 implies #[trigger] asset_views(out@)[1 + k] == cpl_entry(cpls@[k]) by {
            if k < i {
                assert(asset_views(out@)[1 + k] == asset_views(before)[1 + k]);
            }
        }
        i += 1;
    }
    let n = out.len();
    let mut j: usize = 0;
    while j < track_files.len()
        invariant
            j <= track_files.len(),
            n == 1 + cpls.len(),
            out@.len() == n + j,
            asset_views(out@)[0] == pkl_entry(pkl_uuid@),
            forall|k: int| 0 <= k < cpls.len() ==> #[trigger] asset_views(out@)[1 + k] == cpl_entry(cpls@[k]),
            forall|k: int| 0 <= k < j ==> #[trigger] asset_views(out@)[n + k] == track_entry(track_files@[k]),
        decreases track_files.len() - j,
    {
        let t = &track_files[j];
        let ghost before = out@;
        out.push(AssetMapAsset { id: t.uuid.clone(), path: file_name(t.path.as_str()), packing_list: false });
        assert(asset_views(out@)[0] == asset_views(before)[0]);
        assert forall|k: int| 0 <= k < cpls.len() implies #[trigger] asset_views(out@)[1 + k] == cpl_entry(cpls@[k]) by {
            assert(asset_views(out@)[1 + k] == asset_views(before)[1 + k]);
        }
        assert forall|k: int| 0 <= k < j + 1 implies #[trigger] asset_views(out@)[n + k] == track_entry(track_files@[k]) by {
            if k < j {
                assert(asset_views(out@)[n + k] == asset_views(before)[n + k]);
            }
        }
        j += 1;
    }
    let ghost want = assetmap_assets_spec(pkl_uuid@, cpls@, track_files@);
    assert forall|k: int| 0 <= k < want.len() implies #[trigger] asset_views(out@)[k] == want[k] by {
        if k == 0 {
        } else if k < n {
            assert(asset_views(out@)[1 + (k - 1)] == cpl_entry(cpls@[k - 1]));
        } else {
            assert(asset_views(out@)[n + (k - n)] == track_entry(track_files@[k - n]));
        }
    }
    assert(asset_views(out@) =~= want);
    out
}

} // verus!
