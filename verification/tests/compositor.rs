use edv::project::rendering::compositor::{
    blend_mode_for_track_name, prepared_duration, sort_track_ids, volume_for_track_name, BlendMode, CompositionError,
    CompositionSettings, FFmpegCommand, PreparedInput, TrackCompositor,
};
use edv::project::rendering::config::{AudioCodec, VideoCodec};
use edv::project::timeline::history::EditAction;
use edv::project::timeline::{Clip, Timeline, TrackKind};
use edv::project::{AssetId, ClipId, TrackId};
use edv::utility::time::{Duration, TimePosition};

fn id(n: u128) -> TrackId {
    TrackId::from_u128(n)
}

fn named_track(timeline: &mut Timeline, n: u128, kind: TrackKind, name: &str) {
    let action = EditAction::AddTrack { track_id: id(n), track_kind: kind, track_name: name.to_string() };
    assert!(action.apply(timeline).is_ok());
}

fn sample_compositor() -> TrackCompositor {
    let mut timeline = Timeline::new();
    named_track(&mut timeline, 1, TrackKind::Video, "Main");
    named_track(&mut timeline, 2, TrackKind::Video, "Overlay graphics");
    named_track(&mut timeline, 3, TrackKind::Audio, "Background music");
    named_track(&mut timeline, 4, TrackKind::Audio, "Voice");
    named_track(&mut timeline, 5, TrackKind::Video, "Shadow pass");
    named_track(&mut timeline, 6, TrackKind::Video, "Effects");
    TrackCompositor::new(timeline)
}

fn settings() -> CompositionSettings {
    CompositionSettings {
        width: 1280,
        height: 720,
        video_codec: VideoCodec::H264,
        audio_codec: AudioCodec::AAC,
        frame_rate: "30".to_string(),
    }
}

fn input(n: u128, kind: TrackKind, file: Option<&str>) -> PreparedInput {
    PreparedInput { id: id(n), kind, file: file.map(|f| f.to_string()) }
}

fn strings(v: &[&str]) -> Vec<String> {
    v.iter().map(|s| s.to_string()).collect()
}

#[test]
fn blend_modes_and_volumes_from_names() {
    assert_eq!(blend_mode_for_track_name("Title OVERLAY"), BlendMode::Screen);
    assert_eq!(blend_mode_for_track_name("sparkle effect"), BlendMode::Add);
    assert_eq!(blend_mode_for_track_name("My Shadow layer"), BlendMode::Multiply);
    assert_eq!(blend_mode_for_track_name("Main"), BlendMode::Normal);
    assert_eq!(volume_for_track_name("BACKGROUND"), "0.5");
    assert_eq!(volume_for_track_name("Sound Effects"), "0.7");
    assert_eq!(volume_for_track_name("Voice"), "1");

    let c = sample_compositor();
    assert_eq!(c.get_blend_mode_for_track(id(2)), BlendMode::Screen);
    assert_eq!(c.get_blend_mode_for_track(id(99)), BlendMode::Normal);
    assert_eq!(c.get_track_volume(id(3)), "0.5");
    assert_eq!(c.get_track_volume(id(99)), "1");
}

#[test]
fn track_ids_sort_by_value() {
    let sorted = sort_track_ids(&vec![id(3), id(1), id(2), id(1)]);
    assert_eq!(sorted, vec![id(1), id(1), id(2), id(3)]);
    assert!(sort_track_ids(&vec![]).is_empty());
}

#[test]
fn video_filtergraph_layers_and_blends() {
    let c = sample_compositor();
    assert_eq!(c.generate_video_filtergraph(&vec![], 1920, 1080), "");
    assert_eq!(
        c.generate_video_filtergraph(&vec![id(1)], 1920, 1080),
        "[0:v] format=yuva420p ,scale=1920:1080,setsar=1 [v1]"
    );
    assert_eq!(
        c.generate_video_filtergraph(&vec![id(2), id(1)], 1920, 1080),
        "[0:v] format=yuva420p ,scale=1920:1080,setsar=1 [v1];\
         [1:v] format=yuva420p ,scale=1920:1080,setsar=1 [l1];\
         [v1][l1] blend=all_mode=screen:all_opacity=1 [v2]"
    );
    assert_eq!(
        c.generate_video_filtergraph(&vec![id(1), id(5), id(6)], 640, 360),
        "[0:v] format=yuva420p ,scale=640:360,setsar=1 [v1];\
         [1:v] format=yuva420p ,scale=640:360,setsar=1 [l1];\
         [v1][l1] blend=all_mode=multiply:all_opacity=1 [v2];\
         [2:v] format=yuva420p ,scale=640:360,setsar=1 [l2];\
         [v2][l2] blend=all_mode=addition:all_opacity=1 [v3]"
    );
}

#[test]
fn video_filtergraph_normal_overlay() {
    let mut timeline = Timeline::new();
    named_track(&mut timeline, 1, TrackKind::Video, "Base");
    named_track(&mut timeline, 2, TrackKind::Video, "Titles");
    let c = TrackCompositor::new(timeline);
    assert_eq!(
        c.generate_video_filtergraph(&vec![id(1), id(2)], 100, 50),
        "[0:v] format=yuva420p ,scale=100:50,setsar=1 [v1];\
         [1:v] format=yuva420p ,scale=100:50,setsar=1 [l1];\
         [v1][l1] overlay=shortest=1:format=yuv420 [v2]"
    );
}

#[test]
fn audio_filtergraph_single_and_mixed() {
    let c = sample_compositor();
    assert_eq!(c.generate_audio_filtergraph(&vec![]), "");
    assert_eq!(
        c.generate_audio_filtergraph(&vec![id(4)]),
        "[0:a] aformat=sample_fmts=fltp:channel_layouts=stereo,volume=1 [a0];[a0] asetpts=PTS-STARTPTS [aout]"
    );
    assert_eq!(
        c.generate_audio_filtergraph(&vec![id(3), id(4)]),
        "[0:a] aformat=sample_fmts=fltp:channel_layouts=stereo,volume=0.5 [a0];\
         [1:a] aformat=sample_fmts=fltp:channel_layouts=stereo,volume=1 [a1];\
         [a0][a1] amix=inputs=2:duration=longest:normalize=0:dropout_transition=0.5 [aout]"
    );
}

#[test]
fn composition_without_prepared_tracks_fails() {
    let c = sample_compositor();
    assert_eq!(
        c.composition_command(&vec![], &settings(), "out.mp4", 4).unwrap_err(),
        CompositionError::IncompatibleTracks("No prepared tracks to composite".to_string())
    );
    assert!(c.composite_tracks(&vec![], &settings(), "out.mp4").is_err());
}

#[test]
fn composition_of_video_and_audio() {
    let c = sample_compositor();
    let prepared = vec![
        input(1, TrackKind::Video, Some("a.mp4")),
        input(3, TrackKind::Audio, Some("c.wav")),
        input(4, TrackKind::Audio, None),
    ];
    let cmd = c.composition_command(&prepared, &settings(), "out.mp4", 4).unwrap();
    assert_eq!(cmd.inputs, strings(&["a.mp4", "c.wav"]));
    assert_eq!(cmd.output, Some("out.mp4".to_string()));
    assert_eq!(
        cmd.args,
        strings(&[
            "-filter_complex",
            "[0:v] format=yuva420p ,scale=1280:720,setsar=1 [v1];\
             [0:a] aformat=sample_fmts=fltp:channel_layouts=stereo,volume=0.5 [a0];[a0] asetpts=PTS-STARTPTS [aout]",
            "-map",
            "[v1]",
            "-map",
            "[aout]",
            "-c:v",
            "libx264",
            "-pix_fmt",
            "yuv420p",
            "-crf",
            "23",
            "-preset",
            "medium",
            "-r",
            "30",
            "-c:a",
            "aac",
            "-b:a",
            "192k",
        ])
    );
    let same = c.composite_tracks(&prepared, &settings(), "out.mp4").unwrap();
    assert_eq!(same.inputs, cmd.inputs);
    assert_eq!(same.args, cmd.args);
}

#[test]
fn composition_of_subtitles_only_and_copy_codecs() {
    let c = sample_compositor();
    let prepared = vec![input(7, TrackKind::Subtitle, Some("s.srt")), input(8, TrackKind::Subtitle, None)];
    let cmd = c.composition_command(&prepared, &settings(), "o.mkv", 2).unwrap();
    assert_eq!(cmd.inputs, strings(&["s.srt"]));
    assert_eq!(cmd.args, strings(&["-map", "0:s", "-c:s", "mov_text"]));

    let mut s = settings();
    s.video_codec = VideoCodec::VP9;
    s.audio_codec = AudioCodec::Copy;
    let prepared = vec![input(1, TrackKind::Video, Some("v.mp4")), input(4, TrackKind::Audio, Some("a.wav"))];
    let cmd = c.composition_command(&prepared, &s, "o.webm", 2).unwrap();
    assert_eq!(
        cmd.args[2..].to_vec(),
        strings(&["-map", "[v1]", "-map", "[aout]", "-c:v", "libvpx-vp9", "-pix_fmt", "yuv420p", "-r", "30", "-c:a", "copy"])
    );
}

#[test]
fn optimised_composition_adds_tuning() {
    let mut c = sample_compositor();
    c.set_optimize_complex(true);
    let prepared = vec![
        input(1, TrackKind::Video, Some("1.mp4")),
        input(2, TrackKind::Video, Some("2.mp4")),
        input(5, TrackKind::Video, Some("5.mp4")),
        input(6, TrackKind::Video, Some("6.mp4")),
    ];
    let cmd = c.composition_command(&prepared, &settings(), "out.mp4", 8).unwrap();
    let n = cmd.args.len();
    assert_eq!(cmd.args[n - 6..].to_vec(), strings(&["-pass", "1", "-b:v", "921k", "-threads", "8"]));
    assert_eq!(cmd.args[2..4].to_vec(), strings(&["-map", "[v4]"]));

    let three = prepared[..3].to_vec();
    let cmd = c.composition_command(&three, &settings(), "out.mp4", 8).unwrap();
    assert!(!cmd.args.contains(&"-pass".to_string()));
}

#[test]
fn preparation_threads_follow_optimisation() {
    let mut c = sample_compositor();
    assert_eq!(c.preparation_threads(8, 10), None);
    c.set_optimize_complex(true);
    assert_eq!(c.preparation_threads(8, 4), None);
    assert_eq!(c.preparation_threads(8, 5), Some(4));
    assert_eq!(c.preparation_threads(2, 5), Some(2));
    assert_eq!(c.preparation_threads(64, 6), Some(6));
}

#[test]
fn tracks_to_process_and_prepared_duration() {
    let mut timeline = Timeline::new();
    let v = timeline.add_track(TrackKind::Video);
    let _empty = timeline.add_track(TrackKind::Audio);
    let s = timeline.add_track(TrackKind::Subtitle);
    let clip = |pos: u64, dur: u64| {
        Clip::new(
            ClipId::new(),
            AssetId::new(),
            TimePosition::from_seconds(pos),
            Duration::from_seconds(dur),
            TimePosition::from_seconds(0),
            TimePosition::from_seconds(dur),
        )
    };
    assert!(timeline.add_clip(v, clip(0, 5)).is_ok());
    assert!(timeline.add_clip(v, clip(10, 3)).is_ok());
    assert!(timeline.add_clip(s, clip(2, 2)).is_ok());
    let clips = timeline.get_track(v).unwrap().get_clips().to_vec();
    let c = TrackCompositor::new(timeline);
    assert_eq!(c.tracks_to_process(), vec![(v, TrackKind::Video), (s, TrackKind::Subtitle)]);
    assert_eq!(prepared_duration(&clips), Duration::from_seconds(13));
    assert_eq!(prepared_duration(&vec![]), Duration::from_seconds(0));
}

fn compositor_with_track(track_name: &str) -> (TrackCompositor, TrackId) {
    let mut timeline = Timeline::new();
    named_track(&mut timeline, 1, TrackKind::Video, track_name);
    (TrackCompositor::new(timeline), id(1))
}

#[test]
fn test_get_blend_mode_for_track_from_name() {
    let (compositor, track_id) = compositor_with_track("overlay_track");
    let blend_mode = compositor.get_blend_mode_for_track(track_id);
    assert_eq!(blend_mode, BlendMode::Screen);

    let (compositor, track_id) = compositor_with_track("softlight_track");
    let blend_mode = compositor.get_blend_mode_for_track(track_id);
    assert_eq!(blend_mode, BlendMode::Normal);
}

#[test]
fn test_get_blend_mode_for_track_default() {
    let (compositor, track_id) = compositor_with_track("default_track");
    let blend_mode = compositor.get_blend_mode_for_track(track_id);
    assert_eq!(blend_mode, BlendMode::Normal);
}

#[test]
fn test_get_track_volume_from_name() {
    let (compositor, track_id) = compositor_with_track("Background Track");
    let volume: f64 = compositor.get_track_volume(track_id).parse().unwrap();
    assert_eq!(volume, 0.5, "Should return 0.5 volume for background track");

    let (compositor, track_id) = compositor_with_track("Effect Track");
    let volume: f64 = compositor.get_track_volume(track_id).parse().unwrap();
    assert_eq!(volume, 0.7, "Should return 0.7 volume for effect track");

    let (compositor, track_id) = compositor_with_track("Main Track");
    let volume: f64 = compositor.get_track_volume(track_id).parse().unwrap();
    assert_eq!(volume, 1.0, "Should return 1.0 volume for main track");
}

#[test]
fn test_get_track_volume_default() {
    let (compositor, track_id) = compositor_with_track("Regular Track");
    let volume: f64 = compositor.get_track_volume(track_id).parse().unwrap();
    assert_eq!(volume, 1.0, "Should return 1.0 volume as default");
}

#[test]
fn command_builder_lays_out_the_command_line() {
    let mut cmd = FFmpegCommand::new();
    assert_eq!(cmd.command_args(), vec!["-y".to_string()]);
    cmd.add_input("a.mp4");
    cmd.add_input("b.wav");
    cmd.add_complex_filter("[0:v]null[vout]");
    cmd.set_video_codec("libx264");
    cmd.set_audio_codec("aac");
    cmd.set_frame_rate("30");
    cmd.set_video_size(1920, 1080);
    cmd.add_arg("-preset", "fast");
    cmd.set_output("out.mp4");
    assert_eq!(cmd.inputs, strings(&["a.mp4", "b.wav"]));
    assert_eq!(
        cmd.command_args(),
        strings(&[
            "-i", "a.mp4", "-i", "b.wav", "-filter_complex", "[0:v]null[vout]", "-c:v", "libx264", "-c:a",
            "aac", "-r", "30", "-s", "1920x1080", "-preset", "fast", "out.mp4", "-y",
        ])
    );
}
