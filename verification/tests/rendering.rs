use edv::project::rendering::compositor::BlendMode;
use edv::project::rendering::config::{
    should_use_hardware_acceleration, validate_settings, AudioCodec, HardwareAccelType, OutputFormat, VideoCodec,
};
use edv::project::rendering::error::RenderError;
use edv::project::rendering::gpu_accelerator::{has_gpu_acceleration, AccelError, CommandOptions, GpuAccelerator};
use edv::project::rendering::progress::RenderStage;
use edv::project::timeline::keyframes::EasingFunction;
use edv::utility::gpu_test::{
    create_test_video, has_gpu_support, select_best_hardware_acceleration, GpuTestEnvironment, GpuTestResult,
};

#[test]
fn codec_and_format_names() {
    assert_eq!(VideoCodec::H265.to_ffmpeg_codec(), "libx265");
    assert_eq!(VideoCodec::default(), VideoCodec::H264);
    assert_eq!(AudioCodec::Opus.to_ffmpeg_codec(), "libopus");
    assert_eq!(HardwareAccelType::Nvidia.to_ffmpeg_hwaccel(), Some("cuda"));
    assert_eq!(HardwareAccelType::Auto.to_ffmpeg_hwaccel(), None);
    assert_eq!(HardwareAccelType::Intel.get_hw_encoder_name(VideoCodec::H265), Some("hevc_qsv"));
    assert_eq!(HardwareAccelType::Dxva2.get_hw_encoder_name(VideoCodec::H264), None);
    assert_eq!(OutputFormat::WebM.extension(), "webm");
    assert_eq!(BlendMode::ColorDodge.as_str(), "colordodge");
    assert_eq!(RenderStage::PostProcessing.description(), "Post-processing the rendered output");
    assert_eq!(EasingFunction::EaseInOut.as_str(), "ease-in-out");
    assert_eq!(RenderError::Cancelled.message(), "Rendering was cancelled");
}

#[test]
fn available_methods_and_settings() {
    let v = HardwareAccelType::available_from(true, false, false, false, false);
    assert_eq!(v, vec![HardwareAccelType::CpuOnly, HardwareAccelType::Nvidia, HardwareAccelType::Auto]);
    assert_eq!(HardwareAccelType::available_from(false, false, false, false, false), vec![HardwareAccelType::CpuOnly]);
    assert!(should_use_hardware_acceleration(HardwareAccelType::Nvidia, VideoCodec::H264));
    assert!(!should_use_hardware_acceleration(HardwareAccelType::Auto, VideoCodec::H264));
    assert!(!should_use_hardware_acceleration(HardwareAccelType::Nvidia, VideoCodec::VP9));
    assert_eq!(validate_settings(true, 1, 1, true, HardwareAccelType::CpuOnly, VideoCodec::H264), Err("Output path cannot be empty".to_string()));
    assert_eq!(
        validate_settings(false, 1920, 1080, true, HardwareAccelType::Nvidia, VideoCodec::VP9),
        Err("Selected video codec (VP9) is not compatible with hardware acceleration type (Nvidia)".to_string())
    );
    assert!(validate_settings(false, 1920, 1080, true, HardwareAccelType::Auto, VideoCodec::VP9).is_ok());
}

#[test]
fn software_encoder_options() {
    let acc = GpuAccelerator::new(vec![HardwareAccelType::CpuOnly]);
    assert_eq!(acc.get_encoder_name(VideoCodec::H264), "libx264");
    assert_eq!(acc.get_encoder_options(VideoCodec::H264, 80), vec!["-preset", "slower", "-crf", "8"]);
    assert_eq!(acc.get_encoder_options(VideoCodec::H265, 50), vec!["-preset", "medium", "-crf", "18"]);
    assert_eq!(acc.get_encoder_options(VideoCodec::VP9, 50), vec!["-b:v", "5000k"]);
    assert_eq!(acc.get_encoder_options(VideoCodec::AV1, 5), vec!["-crf", "33", "-cpu-used", "8"]);
    assert!(acc.get_encoder_options(VideoCodec::Copy, 50).is_empty());
    assert!(acc.get_decoder_options().is_empty());
}

#[test]
fn hardware_encoder_options() {
    let mut acc = GpuAccelerator::new(HardwareAccelType::available_from(true, true, false, false, false));
    assert!(acc.initialize(true, Some(512 * 1024 * 1024), HardwareAccelType::Nvidia, VideoCodec::H264).is_ok());
    assert!(acc.is_enabled());
    assert_eq!(acc.get_acceleration_type(), HardwareAccelType::Nvidia);
    assert_eq!(acc.get_encoder_name(VideoCodec::H264), "h264_nvenc");
    assert_eq!(acc.get_encoder_name(VideoCodec::VP9), "libvpx-vp9");
    assert_eq!(acc.get_decoder_options(), vec!["-hwaccel", "cuda", "-hwaccel_output_format", "cuda"]);
    assert_eq!(
        acc.get_encoder_options(VideoCodec::H264, 90),
        vec!["-preset", "slow", "-rc", "vbr", "-qp", "7", "-b:v", "7400k", "-maxBufferSize", "512"]
    );
    let mut cmd = CommandOptions { input: Vec::new(), output: Vec::new() };
    acc.apply_to_command(&mut cmd, true, true, VideoCodec::H264, 90);
    assert_eq!(cmd.input[0], ("-hwaccel".to_string(), String::new()));
    assert_eq!(cmd.output[0], ("-c:v".to_string(), "h264_nvenc".to_string()));
    assert_eq!(cmd.output.len(), 11);

    assert!(acc.select_acceleration_type(HardwareAccelType::Vaapi).is_ok());
    assert_eq!(acc.get_encoder_options(VideoCodec::H264, 50), vec!["-global_quality", "40", "-compression_level", "4"]);
    match acc.select_acceleration_type(HardwareAccelType::Intel) {
        Err(AccelError::InvalidArgument(m)) => {
            assert_eq!(m, "Hardware acceleration type Intel is not available on this system")
        }
        _ => panic!("expected an error"),
    }
    assert!(acc.select_acceleration_type(HardwareAccelType::CpuOnly).is_ok());
    assert!(!acc.is_enabled());
}

#[test]
fn benchmarks_are_recorded() {
    let mut acc = GpuAccelerator::new(HardwareAccelType::available_from(true, true, false, false, false));
    // None, Nvidia, Amd, Vaapi, Auto
    acc.run_benchmarks(&vec![None, Some(50), None, Some(0), Some(7)]).unwrap();
    let results = acc.get_benchmark_results();
    assert_eq!(results.len(), 3);
    assert_eq!(results[0].accel_type, HardwareAccelType::Nvidia);
    assert_eq!(results[0].performance_score, Some(100));
    assert!(!results[1].is_available);
    assert_eq!(results[2].performance_score, None);
    assert!(acc.autoselect_best_acceleration(HardwareAccelType::Nvidia).is_ok());
    assert_eq!(acc.get_acceleration_type(), HardwareAccelType::Nvidia);
}

#[test]
fn gpu_testing() {
    let types = HardwareAccelType::available_from(true, false, true, false, false);
    assert!(has_gpu_support(&types));
    assert!(has_gpu_acceleration(&types));
    assert!(!has_gpu_support(&vec![HardwareAccelType::CpuOnly, HardwareAccelType::Auto]));

    let mut env = GpuTestEnvironment::new(types.clone());
    let slow = vec![("h264_encode".to_string(), 50u64), ("h264_decode".to_string(), 30u64)];
    let fast = vec![("h264_encode".to_string(), 10u64), ("h264_encode".to_string(), 5u64)];
    // None, Nvidia, Intel, Auto
    let results = env.test_all_gpus(&vec![None, Some(slow.clone()), Some(fast.clone()), None]);
    assert_eq!(results.len(), 3);
    let nvidia = env.get_result(HardwareAccelType::Nvidia).unwrap();
    assert!(nvidia.is_available);
    assert_eq!(nvidia.gpu_name, Some("NVIDIA GPU (simulated)".to_string()));
    assert_eq!(nvidia.performance_score, Some(125));
    let intel = env.get_result(HardwareAccelType::Intel).unwrap();
    assert_eq!(intel.benchmark_results, vec![("h264_encode".to_string(), 5u64)]);
    assert_eq!(intel.performance_score, Some(2000));
    let auto = env.get_result(HardwareAccelType::Auto).unwrap();
    assert!(!auto.is_available);
    assert_eq!(auto.error_message, Some("Unsupported hardware acceleration type".to_string()));
    assert_eq!(env.get_best_gpu(), Some(HardwareAccelType::Intel));
    assert_eq!(env.get_results().len(), 3);

    assert_eq!(
        select_best_hardware_acceleration(types, &vec![None, Some(slow), Some(fast), None]),
        HardwareAccelType::Intel
    );

    let mut r = GpuTestResult::unavailable(HardwareAccelType::Amd, "broken".to_string());
    r.add_benchmark("x", 3);
    r.add_benchmark("x", 4);
    r.set_performance_score(9);
    assert_eq!(r.benchmark_results, vec![("x".to_string(), 4u64)]);
    assert_eq!(r.performance_score, Some(9));
    assert!(GpuTestResult::available(HardwareAccelType::Amd, "card".to_string()).is_available);

    let cmd = create_test_video("out.mp4", 5);
    assert_eq!(cmd.input_options[3], "testsrc=duration=5:size=1280x720:rate=30");
    assert_eq!(cmd.output_options, vec!["-c:v", "libx264", "-pix_fmt", "yuv420p"]);
    assert_eq!(cmd.output, "out.mp4");
    assert!(cmd.overwrite);
}
