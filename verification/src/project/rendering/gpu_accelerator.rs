//! Hardware-accelerated encoding and decoding: which method is used, and the
//! encoder and decoder options that follow from it.

use vstd::prelude::*;
use crate::utility::text::{
    decimal, decimal_string, is_digit, lemma_decimal_digits, push_str, push_string, push_text, string_from_chars, strings_view,
};
use super::config::{
    accel_label, hw_encoder_name, hwaccel_name, video_codec_name, HardwareAccelType, VideoCodec,
};

verus! {

/// The outcome of a benchmark of one acceleration method.
#[derive(Debug, Clone, Copy, PartialEq, Eq, Structural)]
pub struct GpuBenchmarkResult {
    /// The method that was tested.
    pub accel_type: HardwareAccelType,
    /// Whether the method worked.
    pub is_available: bool,
    /// The performance score (higher is better).
    pub performance_score: Option<u32>,
    /// How long the test encoding took, in milliseconds.
    pub encoding_time_ms: Option<u64>,
    /// How long the test decoding took, in milliseconds.
    pub decoding_time_ms: Option<u64>,
}

/// The score of a test encoding that took `t` milliseconds: 10000 / `t`, at most
/// 100 (none for a zero time).
pub open spec fn encoding_score(t: u64) -> Option<u32> {
    if t > 0 {
        Some((if 10000u64 / t < 100 { 10000u64 / t } else { 100 }) as u32)
    } else {
        None
    }
}

/// The benchmark result of `a` from the time its test encoding took, or `None`
/// when the encoding failed.
pub open spec fn benchmark_of(a: HardwareAccelType, encoding: Option<u64>) -> GpuBenchmarkResult {
    match encoding {
        Some(t) => GpuBenchmarkResult {
            accel_type: a,
            is_available: true,
            performance_score: encoding_score(t),
            encoding_time_ms: Some(t),
            decoding_time_ms: None,
        },
        None => GpuBenchmarkResult {
            accel_type: a,
            is_available: false,
            performance_score: None,
            encoding_time_ms: None,
            decoding_time_ms: None,
        },
    }
}

/// Index of the result for `a` in `rs`, or -1.
pub open spec fn result_index(rs: Seq<GpuBenchmarkResult>, a: HardwareAccelType) -> int
    decreases rs.len(),
{
    if rs.len() == 0 {
        -1
    } else {
        let k = result_index(rs.drop_last(), a);
        if k >= 0 {
            k
        } else if rs.last().accel_type == a {
            rs.len() - 1
        } else {
            -1
        }
    }
}

proof fn lemma_result_index(rs: Seq<GpuBenchmarkResult>, a: HardwareAccelType)
    ensures
        -1 <= result_index(rs, a) < rs.len(),
        result_index(rs, a) >= 0 ==> rs[result_index(rs, a)].accel_type == a,
        forall|j: int| 0 <= j < rs.len() && (result_index(rs, a) < 0 || j < result_index(rs, a))
            ==> (#[trigger] rs[j]).accel_type != a,
    decreases rs.len(),
{
    if rs.len() > 0 {
        lemma_result_index(rs.drop_last(), a);
        assert forall|j: int| 0 <= j < rs.len() && (result_index(rs, a) < 0 || j < result_index(rs, a))
            implies (#[trigger] rs[j]).accel_type != a by {
            if j < rs.len() - 1 {
                assert(rs[j] == rs.drop_last()[j]);
            }
        }
    }
}

/// The results `rs` with `r` recorded: it replaces the result for the same
/// method, or is appended.
pub open spec fn with_result(rs: Seq<GpuBenchmarkResult>, r: GpuBenchmarkResult) -> Seq<GpuBenchmarkResult> {
    let k = result_index(rs, r.accel_type);
    if k >= 0 { rs.update(k, r) } else { rs.push(r) }
}

/// The results after benchmarking the methods `types` (all but `None` and `Auto`)
/// with the test encoding times `times`, starting from `rs`.
pub open spec fn benchmarks_after(
    rs: Seq<GpuBenchmarkResult>,
    types: Seq<HardwareAccelType>,
    times: Seq<Option<u64>>,
) -> Seq<GpuBenchmarkResult>
    decreases types.len(),
{
    if types.len() == 0 || times.len() == 0 {
        rs
    } else {
        let before = benchmarks_after(rs, types.drop_last(), times.drop_last());
        let a = types.last();
        if a == HardwareAccelType::CpuOnly || a == HardwareAccelType::Auto {
            before
        } else {
            with_result(before, benchmark_of(a, times.last()))
        }
    }
}

/// An accelerator as a value.
pub struct GpuAcceleratorView {
    /// The methods available on the machine.
    pub available: Seq<HardwareAccelType>,
    /// The benchmark results, one per method, in the order first recorded.
    pub benchmarks: Seq<GpuBenchmarkResult>,
    /// The selected method.
    pub selected: HardwareAccelType,
    /// Whether hardware decoding is used.
    pub use_hw_decoding: bool,
    /// The most GPU memory to use, in bytes.
    pub max_gpu_memory: Option<u64>,
    /// Whether acceleration is switched on.
    pub enabled: bool,
}

/// Whether an accelerator accelerates: it is switched on and a method other than
/// `None` is selected.
pub open spec fn accelerating(v: GpuAcceleratorView) -> bool {
    v.enabled && v.selected != HardwareAccelType::CpuOnly
}

/// The encoder used for `codec`: the hardware encoder when accelerating and the
/// method has one, the software encoder otherwise.
pub open spec fn encoder_name(v: GpuAcceleratorView, codec: VideoCodec) -> Seq<char> {
    if accelerating(v) && hw_encoder_name(v.selected, codec) is Some {
        hw_encoder_name(v.selected, codec).unwrap()
    } else {
        video_codec_name(codec)
    }
}

/// The decoder options: none unless accelerating with hardware decoding and the
/// method has a decoder name; then `-hwaccel <name>`, followed for NVIDIA, VA-API
/// and Video Toolbox by the output format of the decoded frames.
pub open spec fn decoder_options(v: GpuAcceleratorView) -> Seq<Seq<char>> {
    if !accelerating(v) || !v.use_hw_decoding || hwaccel_name(v.selected) is None {
        Seq::empty()
    } else {
        let base = seq!["-hwaccel"@, hwaccel_name(v.selected).unwrap()];
        match v.selected {
            HardwareAccelType::Nvidia => base + seq!["-hwaccel_output_format"@, "cuda"@],
            HardwareAccelType::Vaapi => base + seq!["-hwaccel_output_format"@, "vaapi"@],
            HardwareAccelType::VideoToolbox => base + seq!["-hwaccel_output_format"@, "videotoolbox"@],
            _ => base,
        }
    }
}

/// `quality * k / 100` rounded to the nearest whole number (halves up).
pub open spec fn scaled(quality: nat, k: nat) -> nat {
    (2 * quality * k + 100) / 200
}

/// The software encoder preset for a quality.
pub open spec fn software_preset(q: nat) -> Seq<char> {
    if q > 90 {
        "veryslow"@
    } else if q > 75 {
        "slower"@
    } else if q > 60 {
        "slow"@
    } else if q > 40 {
        "medium"@
    } else if q > 20 {
        "fast"@
    } else {
        "veryfast"@
    }
}

/// The software encoder options for `codec` at quality `q` (at most 100).
pub open spec fn software_options(codec: VideoCodec, q: nat) -> Seq<Seq<char>> {
    match codec {
        VideoCodec::H264 => seq![
            "-preset"@,
            software_preset(q),
            "-crf"@,
            decimal((30 - scaled(q, 28)) as nat),
        ],
        VideoCodec::H265 => seq![
            "-preset"@,
            software_preset(q),
            "-crf"@,
            decimal((33 - scaled(q, 30)) as nat),
        ],
        VideoCodec::VP9 => seq!["-b:v"@, decimal(scaled(q, 8000) + 1000) + "k"@],
        VideoCodec::AV1 => seq![
            "-crf"@,
            decimal((35 - scaled(q, 30)) as nat),
            "-cpu-used"@,
            decimal((8 - scaled(q, 8)) as nat),
        ],
        VideoCodec::Copy => Seq::empty(),
    }
}

/// The hardware encoder options of the method `a` at quality `q` (at most 100).
pub open spec fn hardware_options(a: HardwareAccelType, q: nat) -> Seq<Seq<char>> {
    match a {
        HardwareAccelType::Nvidia => seq![
            "-preset"@,
            if q > 80 {
                "slow"@
            } else if q > 60 {
                "medium"@
            } else if q > 40 {
                "fast"@
            } else {
                "fastest"@
            },
            "-rc"@,
            "vbr"@,
            "-qp"@,
            decimal((30 - scaled(q, 25)) as nat),
            "-b:v"@,
            decimal(scaled(q, 6000) + 2000) + "k"@,
        ],
        HardwareAccelType::Amd => seq![
            "-quality"@,
            if q > 80 {
                "quality"@
            } else if q > 50 {
                "balanced"@
            } else {
                "speed"@
            },
            "-b:v"@,
            decimal(scaled(q, 8000) + 1000) + "k"@,
        ],
        HardwareAccelType::Intel => seq![
            "-global_quality"@,
            decimal(scaled(q, 30)),
            "-preset"@,
            if q > 80 {
                "veryslow"@
            } else if q > 60 {
                "slower"@
            } else if q > 40 {
                "medium"@
            } else {
                "fast"@
            },
        ],
        HardwareAccelType::Vaapi => seq![
            "-global_quality"@,
            decimal(scaled(q, 80)),
            "-compression_level"@,
            if q > 80 {
                "1"@
            } else if q > 40 {
                "4"@
            } else {
                "7"@
            },
        ],
        HardwareAccelType::VideoToolbox => seq![
            "-b:v"@,
            decimal(scaled(q, 8000) + 2000) + "k"@,
            "-profile:v"@,
            "high"@,
        ],
        _ => seq!["-b:v"@, decimal(scaled(q, 6000) + 2000) + "k"@],
    }
}

/// The encoder options for `codec` at quality `q` (at most 100): software options
/// when not accelerating, otherwise those of the selected method, followed for
/// NVIDIA with a memory limit by the buffer size in MiB.
pub open spec fn encoder_options(v: GpuAcceleratorView, codec: VideoCodec, q: nat) -> Seq<Seq<char>> {
    if !accelerating(v) {
        software_options(codec, q)
    } else {
        let base = hardware_options(v.selected, q);
        if v.selected == HardwareAccelType::Nvidia && v.max_gpu_memory is Some {
            base + seq!["-maxBufferSize"@, decimal(v.max_gpu_memory.unwrap() as nat / (1024 * 1024))]
        } else {
            base
        }
    }
}

/// Outside NVIDIA with a memory limit, no encoder option is `-maxBufferSize`.
proof fn lemma_no_buffer_flag(v: GpuAcceleratorView, codec: VideoCodec, q: nat)
    ensures
        !(accelerating(v) && v.selected == HardwareAccelType::Nvidia && v.max_gpu_memory is Some) ==> forall|k: int|
            0 <= k < encoder_options(v, codec, q).len() ==> #[trigger] encoder_options(v, codec, q)[k]
                != "-maxBufferSize"@,
{
    let m = "-maxBufferSize"@;
    reveal_strlit("-maxBufferSize");
    reveal_strlit("k");
    assert forall|n: nat| #[trigger] decimal(n) != m && decimal(n) + "k"@ != m by {
        lemma_decimal_digits(n);
        assert(is_digit(decimal(n)[0]));
        assert((decimal(n) + "k"@)[0] == decimal(n)[0]);
    }
    reveal_strlit("-preset");
    reveal_strlit("-crf");
    reveal_strlit("-b:v");
    reveal_strlit("-cpu-used");
    reveal_strlit("-rc");
    reveal_strlit("vbr");
    reveal_strlit("-qp");
    reveal_strlit("-quality");
    reveal_strlit("-global_quality");
    reveal_strlit("-compression_level");
    reveal_strlit("-profile:v");
    reveal_strlit("high");
    reveal_strlit("veryslow");
    reveal_strlit("slower");
    reveal_strlit("slow");
    reveal_strlit("medium");
    reveal_strlit("fast");
    reveal_strlit("veryfast");
    reveal_strlit("fastest");
    reveal_strlit("quality");
    reveal_strlit("balanced");
    reveal_strlit("speed");
    reveal_strlit("1");
    reveal_strlit("4");
    reveal_strlit("7");
    assert(m.len() == 14 && m[0] == '-');
    let o = encoder_options(v, codec, q);
    if !(accelerating(v) && v.selected == HardwareAccelType::Nvidia && v.max_gpu_memory is Some) {
        let l = if accelerating(v) { hardware_options(v.selected, q) } else { software_options(codec, q) };
        assert(o == l);
        assert forall|k: int| 0 <= k < l.len() implies #[trigger] l[k] != m by {
            if accelerating(v) {
                match v.selected {
                    HardwareAccelType::Nvidia => {
                        assert(l[k] == seq![
                            "-preset"@,
                            if q > 80 { "slow"@ } else if q > 60 { "medium"@ } else if q > 40 { "fast"@ } else { "fastest"@ },
                            "-rc"@,
                            "vbr"@,
                            "-qp"@,
                            decimal((30 - scaled(q, 25)) as nat),
                            "-b:v"@,
                            decimal(scaled(q, 6000) + 2000) + "k"@,
                        ][k]);
                        if k == 5 {
                            assert(decimal((30 - scaled(q, 25)) as nat) != m);
                        } else if k == 7 {
                            assert(decimal(scaled(q, 6000) + 2000) != m);
                        }
                    },
                    HardwareAccelType::Amd => {
                        if k == 3 {
                            assert(decimal(scaled(q, 8000) + 1000) != m);
                        }
                    },
                    HardwareAccelType::Intel => {
                        if k == 1 {
                            assert(decimal(scaled(q, 30)) != m);
                        }
                    },
                    HardwareAccelType::Vaapi => {
                        if k == 1 {
                            assert(decimal(scaled(q, 80)) != m);
                        }
                    },
                    HardwareAccelType::VideoToolbox => {
                        if k == 1 {
                            assert(decimal(scaled(q, 8000) + 2000) != m);
                        }
                    },
                    _ => {
                        if k == 1 {
                            assert(decimal(scaled(q, 6000) + 2000) != m);
                        }
                    },
                }
            } else {
                match codec {
                    VideoCodec::H264 => {
                        if k == 3 {
                            assert(decimal((30 - scaled(q, 28)) as nat) != m);
                        }
                    },
                    VideoCodec::H265 => {
                        if k == 3 {
                            assert(decimal((33 - scaled(q, 30)) as nat) != m);
                        }
                    },
                    VideoCodec::VP9 => {
                        if k == 1 {
                            assert(decimal(scaled(q, 8000) + 1000) != m);
                        }
                    },
                    VideoCodec::AV1 => {
                        if k == 1 {
                            assert(decimal((35 - scaled(q, 30)) as nat) != m);
                        } else if k == 3 {
                            assert(decimal((8 - scaled(q, 8)) as nat) != m);
                        }
                    },
                    VideoCodec::Copy => {},
                }
            }
        }
    }
}

/// The encoder options come in pairs of a flag, starting with `-`, and its value;
/// the buffer size pair closes them for NVIDIA with a memory limit, and only then
/// does `-maxBufferSize` occur among them.
pub proof fn lemma_encoder_option_pairs(v: GpuAcceleratorView, codec: VideoCodec, q: nat)
    ensures
        encoder_options(v, codec, q).len() % 2 == 0,
        forall|k: int|
            0 <= k < encoder_options(v, codec, q).len() && k % 2 == 0 ==> (#[trigger] encoder_options(
                v,
                codec,
                q,
            )[k]).len() > 0 && encoder_options(v, codec, q)[k][0] == '-',
        !accelerating(v) && codec == VideoCodec::Copy ==> encoder_options(v, codec, q).len() == 0,
        accelerating(v) && v.selected == HardwareAccelType::Nvidia && v.max_gpu_memory is Some ==> ({
            let o = encoder_options(v, codec, q);
            o.len() >= 2 && o[o.len() - 2] == "-maxBufferSize"@ && o[o.len() - 1] == decimal(
                v.max_gpu_memory.unwrap() as nat / (1024 * 1024),
            )
        }),
        (exists|k: int| 0 <= k < encoder_options(v, codec, q).len() && #[trigger] encoder_options(v, codec, q)[k]
            == "-maxBufferSize"@) <==> (accelerating(v) && v.selected == HardwareAccelType::Nvidia
            && v.max_gpu_memory is Some),
{
    lemma_no_buffer_flag(v, codec, q);
    reveal_strlit("-preset");
    reveal_strlit("-crf");
    reveal_strlit("-b:v");
    reveal_strlit("-cpu-used");
    reveal_strlit("-rc");
    reveal_strlit("-qp");
    reveal_strlit("-quality");
    reveal_strlit("-global_quality");
    reveal_strlit("-compression_level");
    reveal_strlit("-profile:v");
    reveal_strlit("-maxBufferSize");
    let o = encoder_options(v, codec, q);
    if accelerating(v) {
        let base = hardware_options(v.selected, q);
        assert(base.len() % 2 == 0);
        if v.selected == HardwareAccelType::Nvidia && v.max_gpu_memory is Some {
            let tail = seq!["-maxBufferSize"@, decimal(v.max_gpu_memory.unwrap() as nat / (1024 * 1024))];
            assert forall|k: int| 0 <= k < o.len() && k % 2 == 0 implies (#[trigger] o[k]).len() > 0 && o[k][0]
                == '-' by {
                if k < base.len() {
                    assert(o[k] == base[k]);
                } else {
                    assert(o[k] == tail[k - base.len()]);
                }
            }
            assert(o[o.len() - 2] == "-maxBufferSize"@);
        }
    }
}

/// Errors of choosing an acceleration method.
#[derive(Debug, Clone, PartialEq, Eq)]
pub enum AccelError {
    /// The requested method cannot be used; the message says why.
    InvalidArgument(String),
}

/// Options for an encoder command, as (option, value) pairs: those that come
/// before the input and those that come before the output.
pub struct CommandOptions {
    pub input: Vec<(String, String)>,
    pub output: Vec<(String, String)>,
}

/// The texts of a list of option pairs.
pub open spec fn pairs_view(v: Seq<(String, String)>) -> Seq<(Seq<char>, Seq<char>)> {
    v.map_values(|p: (String, String)| (p.0@, p.1@))
}

/// Each option as a pair with an empty value.
pub open spec fn as_flags(opts: Seq<Seq<char>>) -> Seq<(Seq<char>, Seq<char>)> {
    opts.map_values(|o: Seq<char>| (o, Seq::<char>::empty()))
}

/// An accelerator: the available methods, benchmark results and the method in use.
#[derive(Debug)]
pub struct GpuAccelerator {
    available_types: Vec<HardwareAccelType>,
    benchmark_results: Vec<GpuBenchmarkResult>,
    selected_type: HardwareAccelType,
    use_hw_decoding: bool,
    max_gpu_memory: Option<u64>,
    enabled: bool,
}

impl View for GpuAccelerator {
    type V = GpuAcceleratorView;

    closed spec fn view(&self) -> GpuAcceleratorView {
        GpuAcceleratorView {
            available: self.available_types@,
            benchmarks: self.benchmark_results@,
            selected: self.selected_type,
            use_hw_decoding: self.use_hw_decoding,
            max_gpu_memory: self.max_gpu_memory,
            enabled: self.enabled,
        }
    }
}

fn push_pair(v: &mut Vec<(String, String)>, a: String, b: String)
    ensures
        pairs_view(final(v)@) == pairs_view(old(v)@).push((a@, b@)),
{
    let ghost p = (a@, b@);
    v.push((a, b));
    assert(pairs_view(v@) =~= pairs_view(old(v)@).push(p));
}

impl GpuAccelerator {
    /// Creates an accelerator for a machine with the methods `available_types`,
    /// switched off, without benchmark results.
    pub fn new(available_types: Vec<HardwareAccelType>) -> (g: Self)
        ensures
            g@ == (GpuAcceleratorView {
                available: available_types@,
                benchmarks: Seq::empty(),
                selected: HardwareAccelType::CpuOnly,
                use_hw_decoding: false,
                max_gpu_memory: None,
                enabled: false,
            }),
    {
        GpuAccelerator {
            available_types,
            benchmark_results: Vec::new(),
            selected_type: HardwareAccelType::CpuOnly,
            use_hw_decoding: false,
            max_gpu_memory: None,
            enabled: false,
        }
    }

    /// Configures the accelerator for rendering with the method `accel` and the
    /// codec `codec`: it is switched on when the method has an encoder for the codec
    /// (see `uses_hardware`), and that method is then selected; otherwise the CPU is.
    pub fn initialize(
        &mut self,
        use_hw_decoding: bool,
        max_gpu_memory: Option<u64>,
        accel: HardwareAccelType,
        codec: VideoCodec,
    ) -> (r: Result<(), AccelError>)
        ensures
            final(self)@.use_hw_decoding == use_hw_decoding,
            final(self)@.max_gpu_memory == max_gpu_memory,
            final(self)@.available == old(self)@.available,
            final(self)@.benchmarks == old(self)@.benchmarks,
            !super::config::uses_hardware(accel, codec) ==> r is Ok && !final(self)@.enabled
                && final(self)@.selected == HardwareAccelType::CpuOnly,
            super::config::uses_hardware(accel, codec) && old(self)@.available.contains(accel) ==> r is Ok
                && final(self)@.enabled && final(self)@.selected == accel,
            super::config::uses_hardware(accel, codec) && !old(self)@.available.contains(accel) ==> (r matches Err(
                AccelError::InvalidArgument(m),
            ) && m@ == "Hardware acceleration type "@ + accel_label(accel) + " is not available on this system"@)
                && final(self)@.enabled && final(self)@.selected == old(self)@.selected,
    {
        self.use_hw_decoding = use_hw_decoding;
        self.max_gpu_memory = max_gpu_memory;
        self.enabled = super::config::should_use_hardware_acceleration(accel, codec);
        if self.enabled {
            self.select_acceleration_type(accel)
        } else {
            self.selected_type = HardwareAccelType::CpuOnly;
            Ok(())
        }
    }

    /// Selects the method `best` found by testing the machine's GPUs.
    pub fn autoselect_best_acceleration(&mut self, best: HardwareAccelType) -> (r: Result<(), AccelError>)
        ensures
            r is Ok,
            final(self)@ == (GpuAcceleratorView { selected: best, ..old(self)@ }),
    {
        self.selected_type = best;
        Ok(())
    }

    /// Selects the method `accel`: `None` selects the CPU and switches acceleration
    /// off; another method must be available, and is then selected and switched on.
    pub fn select_acceleration_type(&mut self, accel_type: HardwareAccelType) -> (r: Result<(), AccelError>)
        ensures
            accel_type == HardwareAccelType::CpuOnly ==> r is Ok && final(self)@ == (GpuAcceleratorView {
                selected: HardwareAccelType::CpuOnly,
                enabled: false,
                ..old(self)@
            }),
            accel_type != HardwareAccelType::CpuOnly && !old(self)@.available.contains(accel_type) ==> (r matches Err(
                AccelError::InvalidArgument(m),
            ) && m@ == "Hardware acceleration type "@ + accel_label(accel_type) + " is not available on this system"@)
                && final(self)@ == old(self)@,
            accel_type != HardwareAccelType::CpuOnly && old(self)@.available.contains(accel_type) ==> r is Ok
                && final(self)@ == (GpuAcceleratorView { selected: accel_type, enabled: true, ..old(self)@ }),
    {
        if accel_type == HardwareAccelType::CpuOnly {
            self.selected_type = HardwareAccelType::CpuOnly;
            self.enabled = false;
            return Ok(());
        }
        let mut found = false;
        let mut i: usize = 0;
        while i < self.available_types.len()
            invariant
                0 <= i <= self.available_types.len(),
                found == exists|j: int| 0 <= j < i && self.available_types@[j] == accel_type,
            decreases self.available_types.len() - i,
        {
            if self.available_types[i] == accel_type {
                found = true;
            }
            i = i + 1;
        }
        if !found {
            let mut out: Vec<char> = Vec::new();
            push_str(&mut out, "Hardware acceleration type ");
            push_str(&mut out, accel_type.label());
            push_str(&mut out, " is not available on this system");
            return Err(AccelError::InvalidArgument(string_from_chars(&out)));
        }
        self.selected_type = accel_type;
        self.enabled = true;
        Ok(())
    }

    /// Records the benchmarks of the available methods other than `None` and `Auto`,
    /// from the times their test encodings took (`times[i]` for the method at
    /// index `i`; `None` when the encoding failed). Earlier results are cleared.
    pub fn run_benchmarks(&mut self, times: &Vec<Option<u64>>) -> (r: Result<(), AccelError>)
        requires
            times@.len() == old(self)@.available.len(),
        ensures
            r is Ok,
            final(self)@ == (GpuAcceleratorView {
                benchmarks: benchmarks_after(Seq::empty(), old(self)@.available, times@),
                ..old(self)@
            }),
    {
        let ghost types = self.available_types@;
        self.benchmark_results = Vec::new();
        let mut i: usize = 0;
        assert(types.take(0) =~= Seq::<HardwareAccelType>::empty());
        assert(times@.take(0) =~= Seq::<Option<u64>>::empty());
        while i < self.available_types.len()
            invariant
                0 <= i <= self.available_types.len(),
                types == self.available_types@,
                times@.len() == types.len(),
                self.benchmark_results@ == benchmarks_after(Seq::empty(), types.take(i as int), times@.take(
                    i as int,
                )),
                self.selected_type == old(self).selected_type,
                self.use_hw_decoding == old(self).use_hw_decoding,
                self.max_gpu_memory == old(self).max_gpu_memory,
                self.enabled == old(self).enabled,
            decreases self.available_types.len() - i,
        {
            let a = self.available_types[i];
            assert(types.take(i + 1).drop_last() == types.take(i as int));
            assert(times@.take(i + 1).drop_last() == times@.take(i as int));
            assert(types.take(i + 1).last() == a);
            assert(times@.take(i + 1).last() == times@[i as int]);
            if a != HardwareAccelType::CpuOnly && a != HardwareAccelType::Auto {
                let result = match times[i] {
                    Some(t) => GpuBenchmarkResult {
                        accel_type: a,
                        is_available: true,
                        performance_score: if t > 0 {
                            Some((if 10000 / t < 100 { 10000 / t } else { 100 }) as u32)
                        } else {
                            None
                        },
                        encoding_time_ms: Some(t),
                        decoding_time_ms: None,
                    },
                    None => GpuBenchmarkResult {
                        accel_type: a,
                        is_available: false,
                        performance_score: None,
                        encoding_time_ms: None,
                        decoding_time_ms: None,
                    },
                };
                self.record_benchmark(result);
            }
            i = i + 1;
        }
        assert(types.take(types.len() as int) == types);
        assert(times@.take(times@.len() as int) == times@);
        Ok(())
    }

    fn record_benchmark(&mut self, result: GpuBenchmarkResult)
        ensures
            final(self)@ == (GpuAcceleratorView {
                benchmarks: with_result(old(self)@.benchmarks, result),
                ..old(self)@
            }),
    {
        proof {
            lemma_result_index(self.benchmark_results@, result.accel_type);
        }
        let mut i: usize = 0;
        while i < self.benchmark_results.len()
            invariant
                0 <= i <= self.benchmark_results.len(),
                self.benchmark_results@ == old(self).benchmark_results@,
                self.available_types@ == old(self).available_types@,
                self.selected_type == old(self).selected_type,
                self.use_hw_decoding == old(self).use_hw_decoding,
                self.max_gpu_memory == old(self).max_gpu_memory,
                self.enabled == old(self).enabled,
                forall|j: int| 0 <= j < i ==> (#[trigger] self.benchmark_results@[j]).accel_type != result.accel_type,
            decreases self.benchmark_results.len() - i,
        {
            if self.benchmark_results[i].accel_type == result.accel_type {
                proof {
                    lemma_result_index(self.benchmark_results@, result.accel_type);
                    let k = result_index(self.benchmark_results@, result.accel_type);
                    if k >= 0 && k < i {
                        assert(self.benchmark_results@[k].accel_type == result.accel_type);
                    }
                }
                self.benchmark_results.set(i, result);
                return;
            }
            i = i + 1;
        }
        self.benchmark_results.push(result);
    }

    /// Whether the accelerator accelerates (see `accelerating`).
    pub fn is_enabled(&self) -> (b: bool)
        ensures
            b == accelerating(self@),
    {
        self.enabled && self.selected_type != HardwareAccelType::CpuOnly
    }

    /// The selected method.
    pub fn get_acceleration_type(&self) -> (a: HardwareAccelType)
        ensures
            a == self@.selected,
    {
        self.selected_type
    }

    /// The benchmark results, one per tested method.
    pub fn get_benchmark_results(&self) -> (s: &[GpuBenchmarkResult])
        ensures
            s@ == self@.benchmarks,
    {
        self.benchmark_results.as_slice()
    }

    /// The encoder to use for `codec` (see `encoder_name`).
    pub fn get_encoder_name(&self, codec: VideoCodec) -> (s: &'static str)
        ensures
            s@ == encoder_name(self@, codec),
    {
        if self.is_enabled() {
            match self.selected_type.get_hw_encoder_name(codec) {
                Some(encoder) => {
                    return encoder;
                },
                None => {},
            }
        }
        codec.to_ffmpeg_codec()
    }

    /// The decoder options (see `decoder_options`).
    pub fn get_decoder_options(&self) -> (v: Vec<String>)
        ensures
            strings_view(v@) == decoder_options(self@),
    {
        let mut options: Vec<String> = Vec::new();
        if !self.is_enabled() || !self.use_hw_decoding {
            assert(strings_view(options@) =~= Seq::<Seq<char>>::empty());
            return options;
        }
        match self.selected_type.to_ffmpeg_hwaccel() {
            Some(hwaccel) => {
                push_text(&mut options, "-hwaccel");
                push_text(&mut options, hwaccel);
                match self.selected_type {
                    HardwareAccelType::Nvidia => {
                        push_text(&mut options, "-hwaccel_output_format");
                        push_text(&mut options, "cuda");
                    },
                    HardwareAccelType::Vaapi => {
                        push_text(&mut options, "-hwaccel_output_format");
                        push_text(&mut options, "vaapi");
                    },
                    HardwareAccelType::VideoToolbox => {
                        push_text(&mut options, "-hwaccel_output_format");
                        push_text(&mut options, "videotoolbox");
                    },
                    _ => {},
                }
                assert(strings_view(options@) =~= decoder_options(self@));
            },
            None => {
                assert(strings_view(options@) =~= Seq::<Seq<char>>::empty());
            },
        }
        options
    }

    /// The encoder options for `codec` at `quality`, from 0 to 100 (see
    /// `encoder_options`).
    pub fn get_encoder_options(&self, codec: VideoCodec, quality: u32) -> (v: Vec<String>)
        requires
            quality <= 100,
        ensures
            strings_view(v@) == encoder_options(self@, codec, quality as nat),
    {
        let q = quality as u64;
        let mut options: Vec<String> = Vec::new();
        if !self.is_enabled() {
            match codec {
                VideoCodec::H264 => {
                    push_text(&mut options, "-preset");
                    push_text(&mut options, software_preset_of(q));
                    push_text(&mut options, "-crf");
                    push_string(&mut options, decimal_string(30 - scaled_of(q, 28)));
                },
                VideoCodec::H265 => {
                    push_text(&mut options, "-preset");
                    push_text(&mut options, software_preset_of(q));
                    push_text(&mut options, "-crf");
                    push_string(&mut options, decimal_string(33 - scaled_of(q, 30)));
                },
                VideoCodec::VP9 => {
                    push_text(&mut options, "-b:v");
                    push_string(&mut options, kilo_string(scaled_of(q, 8000) + 1000));
                },
                VideoCodec::AV1 => {
                    push_text(&mut options, "-crf");
                    push_string(&mut options, decimal_string(35 - scaled_of(q, 30)));
                    push_text(&mut options, "-cpu-used");
                    push_string(&mut options, decimal_string(8 - scaled_of(q, 8)));
                },
                VideoCodec::Copy => {},
            }
            assert(strings_view(options@) =~= encoder_options(self@, codec, quality as nat));
            return options;
        }
        match self.selected_type {
            HardwareAccelType::Nvidia => {
                push_text(&mut options, "-preset");
                let preset = if q > 80 {
                    "slow"
                } else if q > 60 {
                    "medium"
                } else if q > 40 {
                    "fast"
                } else {
                    "fastest"
                };
                push_text(&mut options, preset);
                push_text(&mut options, "-rc");
                push_text(&mut options, "vbr");
                push_text(&mut options, "-qp");
                push_string(&mut options, decimal_string(30 - scaled_of(q, 25)));
                push_text(&mut options, "-b:v");
                push_string(&mut options, kilo_string(scaled_of(q, 6000) + 2000));
            },
            HardwareAccelType::Amd => {
                push_text(&mut options, "-quality");
                let level = if q > 80 {
                    "quality"
                } else if q > 50 {
                    "balanced"
                } else {
                    "speed"
                };
                push_text(&mut options, level);
                push_text(&mut options, "-b:v");
                push_string(&mut options, kilo_string(scaled_of(q, 8000) + 1000));
            },
            HardwareAccelType::Intel => {
                push_text(&mut options, "-global_quality");
                push_string(&mut options, decimal_string(scaled_of(q, 30)));
                push_text(&mut options, "-preset");
                let preset = if q > 80 {
                    "veryslow"
                } else if q > 60 {
                    "slower"
                } else if q > 40 {
                    "medium"
                } else {
                    "fast"
                };
                push_text(&mut options, preset);
            },
            HardwareAccelType::Vaapi => {
                push_text(&mut options, "-global_quality");
                push_string(&mut options, decimal_string(scaled_of(q, 80)));
                push_text(&mut options, "-compression_level");
                let level = if q > 80 {
                    "1"
                } else if q > 40 {
                    "4"
                } else {
                    "7"
                };
                push_text(&mut options, level);
            },
            HardwareAccelType::VideoToolbox => {
                push_text(&mut options, "-b:v");
                push_string(&mut options, kilo_string(scaled_of(q, 8000) + 2000));
                push_text(&mut options, "-profile:v");
                push_text(&mut options, "high");
            },
            _ => {
                push_text(&mut options, "-b:v");
                push_string(&mut options, kilo_string(scaled_of(q, 6000) + 2000));
            },
        }
        let ghost base = strings_view(options@);
        assert(base =~= hardware_options(self.selected_type, quality as nat));
        if self.selected_type == HardwareAccelType::Nvidia {
            match self.max_gpu_memory {
                Some(m) => {
                    push_text(&mut options, "-maxBufferSize");
                    push_string(&mut options, decimal_string(m / (1024 * 1024)));
                },
                None => {},
            }
        }
        assert(strings_view(options@) =~= encoder_options(self@, codec, quality as nat));
        options
    }

    /// Adds the acceleration options to an encoder command: nothing when not
    /// accelerating; otherwise, when asked, each decoder option before the input,
    /// and the encoder for `codec` followed by each encoder option before the output.
    pub fn apply_to_command(
        &self,
        command: &mut CommandOptions,
        input_options: bool,
        output_options: bool,
        codec: VideoCodec,
        quality: u32,
    )
        requires
            quality <= 100,
        ensures
            !accelerating(self@) ==> pairs_view(final(command).input@) == pairs_view(old(command).input@)
                && pairs_view(final(command).output@) == pairs_view(old(command).output@),
            accelerating(self@) ==> pairs_view(final(command).input@) == pairs_view(old(command).input@) + (
            if input_options {
                as_flags(decoder_options(self@))
            } else {
                Seq::empty()
            }),
            accelerating(self@) ==> pairs_view(final(command).output@) == pairs_view(old(command).output@) + (
            if output_options {
                seq![("-c:v"@, encoder_name(self@, codec))] + as_flags(encoder_options(self@, codec, quality as nat))
            } else {
                Seq::empty()
            }),
    {
        if !self.is_enabled() {
            return;
        }
        let ghost in0 = pairs_view(command.input@);
        let ghost out0 = pairs_view(command.output@);
        if input_options {
            let opts = self.get_decoder_options();
            add_flags(&mut command.input, &opts);
        } else {
            assert(in0 + Seq::<(Seq<char>, Seq<char>)>::empty() =~= in0);
        }
        if output_options {
            let encoder = self.get_encoder_name(codec);
            push_pair(&mut command.output, "-c:v".to_string(), encoder.to_string());
            let opts = self.get_encoder_options(codec, quality);
            let ghost mid = pairs_view(command.output@);
            add_flags(&mut command.output, &opts);
            assert(out0 + (seq![("-c:v"@, encoder_name(self@, codec))] + as_flags(
                encoder_options(self@, codec, quality as nat),
            )) =~= mid + as_flags(encoder_options(self@, codec, quality as nat)));
        } else {
            assert(out0 + Seq::<(Seq<char>, Seq<char>)>::empty() =~= out0);
        }
    }
}

fn add_flags(v: &mut Vec<(String, String)>, opts: &Vec<String>)
    ensures
        pairs_view(final(v)@) == pairs_view(old(v)@) + as_flags(strings_view(opts@)),
{
    let mut i: usize = 0;
    while i < opts.len()
        invariant
            0 <= i <= opts.len(),
            pairs_view(v@) == pairs_view(old(v)@) + as_flags(strings_view(opts@.take(i as int))),
        decreases opts.len() - i,
    {
        let o = opts[i].clone();
        push_pair(v, o, String::new());
        assert(as_flags(strings_view(opts@.take(i + 1))) =~= as_flags(strings_view(opts@.take(i as int))).push(
            (opts@[i as int]@, Seq::<char>::empty()),
        ));
        i = i + 1;
    }
    assert(opts@.take(opts.len() as int) == opts@);
}

fn scaled_of(q: u64, k: u64) -> (r: u64)
    requires
        q <= 100,
        k <= 8000,
    ensures
        r == scaled(q as nat, k as nat),
        r <= k,
{
    assert(2 * q * k + 100 <= 1_600_100) by (nonlinear_arith)
        requires
            q <= 100,
            k <= 8000,
    ;
    assert((2 * q * k + 100) / 200 <= k) by (nonlinear_arith)
        requires
            q <= 100,
    ;
    (2 * q * k + 100) / 200
}

fn kilo_string(n: u64) -> (s: String)
    ensures
        s@ == decimal(n as nat) + "k"@,
{
    let mut out: Vec<char> = Vec::new();
    crate::utility::text::push_decimal(&mut out, n);
    push_str(&mut out, "k");
    string_from_chars(&out)
}

fn software_preset_of(q: u64) -> (s: &'static str)
    ensures
        s@ == software_preset(q as nat),
{
    if q > 90 {
        "veryslow"
    } else if q > 75 {
        "slower"
    } else if q > 60 {
        "slow"
    } else if q > 40 {
        "medium"
    } else if q > 20 {
        "fast"
    } else {
        "veryfast"
    }
}

/// Whether the machine has a working acceleration method, given the methods found
/// there (see `has_gpu_support`).
pub fn has_gpu_acceleration(available_types: &Vec<HardwareAccelType>) -> (b: bool)
    ensures
        b == crate::utility::gpu_test::any_gpu_works(available_types@),
{
    crate::utility::gpu_test::has_gpu_support(available_types)
}

} // verus!
