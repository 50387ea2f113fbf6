use edv::project::rendering::cache::RenderCache;
use edv::project::rendering::pipeline::{
    assets_to_process, cache_settings, calculate_timeline_duration, is_media_asset,
};
use edv::project::timeline::{Clip, TrackKind};
use edv::project::{AssetId, AssetMetadata, AssetReference, ClipId, Project};
use edv::utility::time::{Duration, TimePosition};

fn asset(n: u128, kind: &str) -> AssetReference {
    AssetReference {
        id: AssetId::from_u128(n),
        path: format!("/media/{n}"),
        metadata: AssetMetadata {
            duration: None,
            dimensions: None,
            asset_type: kind.to_string(),
            extra: vec![],
        },
    }
}

fn clip(n: u128, start_ms: u64, len_ms: u64) -> Clip {
    Clip::new(
        ClipId::from_u128(n),
        AssetId::from_u128(n),
        TimePosition::from_millis(start_ms),
        Duration::from_millis(len_ms),
        TimePosition::from_millis(0),
        TimePosition::from_millis(len_ms),
    )
}

#[test]
fn duration_is_the_latest_clip_end() {
    let mut p = Project::new("Render");
    assert_eq!(calculate_timeline_duration(&p).as_millis(), 0);
    let v = p.timeline.add_track(TrackKind::Video);
    let a = p.timeline.add_track(TrackKind::Audio);
    assert!(p.timeline.add_clip(v, clip(1, 1000, 4000)).is_ok());
    assert!(p.timeline.add_clip(a, clip(2, 0, 7500)).is_ok());
    assert_eq!(calculate_timeline_duration(&p).as_millis(), 7500);
}

#[test]
fn configured_cache_settings_win() {
    let (dir, max) = cache_settings(Some("/cfg".to_string()), "/tmp/edv_cache".to_string(), None, Some(9));
    assert_eq!(dir, "/cfg");
    assert_eq!(max, Some(9));
    let (dir, max) = cache_settings(None, "/tmp/edv_cache".to_string(), Some(5), Some(9));
    assert_eq!(dir, "/tmp/edv_cache");
    assert_eq!(max, Some(5));
}

#[test]
fn only_uncached_media_assets_are_processed() {
    assert!(is_media_asset("video"));
    assert!(is_media_asset("audio"));
    assert!(!is_media_asset("image"));
    assert!(!is_media_asset("Video"));

    let assets = vec![asset(1, "video"), asset(2, "image"), asset(3, "audio"), asset(4, "video")];
    let mut cache = RenderCache::new("/tmp/c", None, 0);
    let ids = assets_to_process(&assets, &cache, 7);
    assert_eq!(ids, vec![AssetId::from_u128(1), AssetId::from_u128(3), AssetId::from_u128(4)]);

    cache.record(AssetId::from_u128(3), 7, "x".to_string(), Duration::from_millis(1), 1, 1);
    cache.record(AssetId::from_u128(4), 8, "y".to_string(), Duration::from_millis(1), 1, 2);
    let ids = assets_to_process(&assets, &cache, 7);
    assert_eq!(ids, vec![AssetId::from_u128(1), AssetId::from_u128(4)]);

    cache.set_enabled(false);
    let ids = assets_to_process(&assets, &cache, 7);
    assert_eq!(ids, vec![AssetId::from_u128(1), AssetId::from_u128(3), AssetId::from_u128(4)]);
}
