//! Rendering settings: codecs, hardware acceleration, render stages and errors.

pub mod cache;
pub mod compositor;
pub mod config;
pub mod error;
pub mod gpu_accelerator;
pub mod pipeline;
pub mod progress;

pub use compositor::BlendMode;
pub use config::{AudioCodec, HardwareAccelType, OutputFormat, VideoCodec};
pub use error::RenderError;
pub use gpu_accelerator::{has_gpu_acceleration, GpuAccelerator, GpuBenchmarkResult};
pub use progress::{RenderStage, SharedProgressTracker};
