//! Decisions of the render pipeline: how long the rendered timeline is, where its
//! cache lives, and which assets are rendered ahead of time into the cache.

use vstd::prelude::*;
use crate::project::rendering::cache::{entry_index, CacheView, RenderCache};
use crate::project::timeline::timeline_end;
use crate::project::{AssetId, AssetReference, Project};
use crate::utility::text::text_eq;
use crate::utility::time::Duration;

verus! {

/// The duration of the rendered project: the latest end of a clip on any track
/// (zero for an empty timeline).
pub fn calculate_timeline_duration(project: &Project) -> (d: Duration)
    ensures
        d@ == timeline_end(project.timeline@.tracks),
{
    project.timeline.duration()
}

/// The directory and size limit of the render cache: those of the configuration
/// where it sets them, otherwise the ones given.
pub fn cache_settings(
    config_dir: Option<String>,
    dir: String,
    config_max: Option<u64>,
    max: Option<u64>,
) -> (r: (String, Option<u64>))
    ensures
        r.0@ == (match config_dir {
            Some(d) => d@,
            None => dir@,
        }),
        r.1 == (match config_max {
            Some(m) => Some(m),
            None => max,
        }),
{
    let d = match config_dir {
        Some(d) => d,
        None => dir,
    };
    let m = match config_max {
        Some(m) => Some(m),
        None => max,
    };
    (d, m)
}

/// Whether an asset of kind `t` is rendered ahead of time: video and audio are.
pub open spec fn is_media(t: Seq<char>) -> bool {
    t == "video"@ || t == "audio"@
}

/// Whether the asset kind `asset_type` is video or audio.
pub fn is_media_asset(asset_type: &str) -> (b: bool)
    ensures
        b == is_media(asset_type@),
{
    text_eq(asset_type, "video") || text_eq(asset_type, "audio")
}

/// Whether the asset `a` still has to be rendered into the cache `c` for
/// parameters of hash `hash`: it is video or audio and `c` gives no entry for it.
pub open spec fn needs_loading(a: AssetReference, c: CacheView, hash: u64) -> bool {
    is_media(a.metadata.asset_type@) && !(c.enabled && entry_index(c.entries, a.id, hash) >= 0)
}

/// The identifiers of the assets of `s` that still have to be rendered, in order.
pub open spec fn assets_needing_load(
    s: Seq<AssetReference>,
    c: CacheView,
    hash: u64,
) -> Seq<AssetId>
    decreases s.len(),
{
    if s.len() == 0 {
        Seq::empty()
    } else {
        let r = assets_needing_load(s.drop_last(), c, hash);
        if needs_loading(s.last(), c, hash) {
            r.push(s.last().id)
        } else {
            r
        }
    }
}

/// The identifiers of the assets of `assets` that are rendered ahead of time
/// into `cache` for parameters of hash `params_hash`: the video and audio assets
/// the cache has no entry for, in order.
pub fn assets_to_process(assets: &Vec<AssetReference>, cache: &RenderCache, params_hash: u64) -> (r: Vec<
    AssetId,
>)
    ensures
        r@ == assets_needing_load(assets@, cache@, params_hash),
{
    let mut r: Vec<AssetId> = Vec::new();
    let mut i: usize = 0;
    assert(assets@.take(0) =~= Seq::<AssetReference>::empty());
    while i < assets.len()
        invariant
            0 <= i <= assets.len(),
            r@ == assets_needing_load(assets@.take(i as int), cache@, params_hash),
        decreases assets.len() - i,
    {
        assert(assets@.take(i + 1).drop_last() =~= assets@.take(i as int));
        assert(assets@.take(i + 1).last() == assets@[i as int]);
        let a = &assets[i];
        let media = is_media_asset(a.metadata.asset_type.as_str());
        if media && cache.get(a.id, params_hash).is_none() {
            r.push(a.id);
        }
        i = i + 1;
    }
    assert(assets@.take(assets.len() as int) =~= assets@);
    r
}

} // verus!
