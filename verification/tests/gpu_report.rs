use edv::project::rendering::config::HardwareAccelType;
use edv::utility::gpu_test::{generate_gpu_report, GpuTestResult};

#[test]
fn report_lists_results_and_recommends_the_best() {
    let mut nvidia = GpuTestResult::available(HardwareAccelType::Nvidia, "RTX".to_string());
    nvidia.add_benchmark("h264", 120);
    nvidia.set_performance_score(80);
    let amd = GpuTestResult::unavailable(HardwareAccelType::Amd, "no device".to_string());
    let mut intel = GpuTestResult::available(HardwareAccelType::Intel, "Arc".to_string());
    intel.set_performance_score(80);
    let report = generate_gpu_report(&vec![nvidia, amd, intel], "2024-01-02 03:04:05");
    let expected = "# GPU Capability Test Report\n\n\
Test Date: 2024-01-02 03:04:05\n\n\
Available GPUs: 2/3\n\n\
## Detailed Results\n\n\
### Nvidia\n\n\
- Available: true\n\
- GPU Name: RTX\n\
- Performance Score: 80\n\
- Benchmark Results:\n  - h264: 120ms\n\n\
### Amd\n\n\
- Available: false\n\
- Error: no device\n\n\
### Intel\n\n\
- Available: true\n\
- GPU Name: Arc\n\
- Performance Score: 80\n\n\
## Recommendations\n\n\
Recommended hardware acceleration: Intel\n\
Performance score: 80\n";
    assert_eq!(report, expected);
}

#[test]
fn report_without_working_methods_suggests_the_processor() {
    let none = GpuTestResult::unavailable(HardwareAccelType::CpuOnly, "skipped".to_string());
    let report = generate_gpu_report(&vec![none], "today");
    assert!(report.contains("Available GPUs: 0/1\n\n"));
    assert!(report.contains("### None\n\n- Available: false\n- Error: skipped\n\n"));
    assert!(report.ends_with(
        "## Recommendations\n\nNo suitable hardware accelerators found. Using CPU-only mode.\nPlease check your hardware and drivers.\n"
    ));
}
