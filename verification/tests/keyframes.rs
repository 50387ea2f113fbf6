use edv::project::timeline::keyframes::{
    EasingFunction, KeyframeAnimation, KeyframeError, KeyframeSample, KeyframeSpan, KeyframeTrack,
};
use edv::utility::time::{Duration, TimePosition};

fn at(seconds: u64) -> TimePosition {
    TimePosition::from_millis(seconds * 1000)
}

#[test]
fn keyframes_stay_in_time_order() {
    let mut track: KeyframeTrack<f64> = KeyframeTrack::new("opacity");
    assert_eq!(track.property_name(), "opacity");
    track.add_keyframe(at(10), 1.0, EasingFunction::EaseOut).unwrap();
    track.add_keyframe(at(0), 0.0, EasingFunction::Linear).unwrap();
    track.add_keyframe(at(5), 0.5, EasingFunction::Step).unwrap();
    let times: Vec<u64> = track.keyframes().iter().map(|k| k.time().as_millis()).collect();
    assert_eq!(times, vec![0, 5000, 10000]);
    assert_eq!(track.add_keyframe(at(0), 0.5, EasingFunction::Linear), Err(KeyframeError::DuplicateKeyframe(at(0))));
    assert_eq!(track.keyframe_count(), 3);
}

#[test]
fn keyframe_samples() {
    let mut track: KeyframeTrack<f64> = KeyframeTrack::new("opacity");
    assert_eq!(track.sample(at(1)), None);
    track.add_keyframe(at(0), 0.0, EasingFunction::Linear).unwrap();
    track.add_keyframe(at(10), 1.0, EasingFunction::EaseOut).unwrap();
    assert_eq!(track.sample(at(0)), Some(KeyframeSample::Exact(0.0)));
    assert_eq!(track.sample(at(10)), Some(KeyframeSample::Exact(1.0)));
    assert_eq!(track.sample(at(11)), Some(KeyframeSample::Exact(1.0)));
    assert_eq!(
        track.sample(at(5)),
        Some(KeyframeSample::Blend {
            from: 0.0,
            to: 1.0,
            easing: EasingFunction::Linear,
            elapsed: Duration::from_millis(5000),
            length: Duration::from_millis(10000),
        })
    );
    assert_eq!(
        track.locate(at(5)),
        Some(KeyframeSpan::Between {
            index: 0,
            elapsed: Duration::from_millis(5000),
            length: Duration::from_millis(10000)
        })
    );
    track.update_keyframe(at(0), Some(0.2), None).unwrap();
    assert_eq!(track.sample(at(0)), Some(KeyframeSample::Exact(0.2)));
    track.update_keyframe(at(0), None, Some(EasingFunction::EaseIn)).unwrap();
    assert_eq!(track.keyframes()[0].easing(), EasingFunction::EaseIn);
    assert_eq!(track.keyframes()[0].value(), 0.2);
    assert!(matches!(track.update_keyframe(at(3), Some(1.0), None), Err(KeyframeError::KeyframeNotFound { .. })));
    track.remove_keyframe(at(0)).unwrap();
    assert_eq!(track.keyframe_count(), 1);
    assert!(track.remove_keyframe(at(0)).is_err());
    track.clear();
    assert_eq!(track.keyframe_count(), 0);
}

#[test]
fn animation_tracks_by_property() {
    let mut animation: KeyframeAnimation<f64> = KeyframeAnimation::new(Duration::from_millis(10_000));
    animation.add_keyframe("opacity", at(0), 0.0, EasingFunction::Linear).unwrap();
    animation.add_keyframe("opacity", at(10), 1.0, EasingFunction::EaseOut).unwrap();
    animation.add_keyframe("scale", at(0), 1.0, EasingFunction::Linear).unwrap();
    animation.add_keyframe("scale", at(5), 1.5, EasingFunction::EaseIn).unwrap();
    animation.add_keyframe("scale", at(10), 2.0, EasingFunction::Linear).unwrap();
    assert!(animation.add_keyframe("scale", at(5), 3.0, EasingFunction::Linear).is_err());

    assert_eq!(animation.sample("opacity", at(0)), Some(KeyframeSample::Exact(0.0)));
    assert_eq!(animation.sample("scale", at(0)), Some(KeyframeSample::Exact(1.0)));
    assert_eq!(animation.sample("rotation", at(5)), None);

    assert_eq!(animation.properties(), vec!["opacity".to_string(), "scale".to_string()]);
    assert!(animation.has_property("scale"));
    assert_eq!(animation.get_track("scale").unwrap().keyframe_count(), 3);
    assert_eq!(animation.duration().as_millis(), 10_000);

    animation.remove_keyframe("scale", at(5)).unwrap();
    assert_eq!(animation.get_track("scale").unwrap().keyframe_count(), 2);
    assert_eq!(animation.remove_keyframe("rotation", at(5)), Err(KeyframeError::PropertyNotFound("rotation".to_string())));
    animation.remove_property("opacity").unwrap();
    assert!(!animation.has_property("opacity"));
    assert_eq!(animation.remove_property("opacity"), Err(KeyframeError::PropertyNotFound("opacity".to_string())));
    animation.create_track_if_missing("rotation").unwrap();
    assert_eq!(animation.get_track("rotation").unwrap().keyframe_count(), 0);
    let mut replacement: KeyframeTrack<f64> = KeyframeTrack::new("spin");
    replacement.add_keyframe(at(1), 90.0, EasingFunction::Linear).unwrap();
    animation.add_track("rotation", replacement).unwrap();
    assert_eq!(animation.get_track("rotation").unwrap().property_name(), "spin");
    animation.set_duration(Duration::from_millis(5));
    assert_eq!(animation.duration().as_millis(), 5);
    animation.clear();
    assert!(animation.properties().is_empty());
}

#[test]
fn property_names_follow_the_order_tracks_were_added() {
    let mut anim: KeyframeAnimation<f64> = KeyframeAnimation::new(Duration::from_millis(10_000));
    anim.create_track_if_missing("volume").unwrap();
    anim.create_track_if_missing("blend_mode").unwrap();
    anim.create_track_if_missing("volume").unwrap();
    assert_eq!(anim.property_names(), vec!["volume", "blend_mode"]);
    assert_eq!(anim.tracks().len(), 2);
    assert_eq!(anim.tracks()[1].0, "blend_mode");
    assert_eq!(anim.tracks()[1].1.property_name(), "blend_mode");
}
