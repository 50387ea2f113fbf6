//! Testing the GPUs of a machine: which acceleration methods work and how fast
//! they are, from the measurements taken on the machine.

use vstd::prelude::*;
use crate::project::rendering::config::{accel_label, HardwareAccelType};
use crate::utility::text::{decimal, push_decimal, push_str, push_text, string_from_chars, strings_view};

verus! {

/// The outcome of testing one acceleration method.
#[derive(Debug, Clone)]
pub struct GpuTestResult {
    /// The method tested.
    pub accel_type: HardwareAccelType,
    /// Whether the method works.
    pub is_available: bool,
    /// The name of the device found, if any.
    pub gpu_name: Option<String>,
    /// The performance score (higher is better).
    pub performance_score: Option<u32>,
    /// Why the method does not work, if it does not.
    pub error_message: Option<String>,
    /// The benchmark durations in milliseconds, one per operation name.
    pub benchmark_results: Vec<(String, u64)>,
}

/// The texts and durations of a list of benchmarks.
pub open spec fn benches_view(v: Seq<(String, u64)>) -> Seq<(Seq<char>, u64)> {
    v.map_values(|p: (String, u64)| (p.0@, p.1))
}

/// The text of an optional string.
pub open spec fn opt_text(o: Option<String>) -> Option<Seq<char>> {
    match o {
        Some(s) => Some(s@),
        None => None,
    }
}

/// Index of the benchmark named `name` in `s`, or -1.
pub open spec fn bench_index(s: Seq<(Seq<char>, u64)>, name: Seq<char>) -> int
    decreases s.len(),
{
    if s.len() == 0 {
        -1
    } else {
        let k = bench_index(s.drop_last(), name);
        if k >= 0 {
            k
        } else if s.last().0 == name {
            s.len() - 1
        } else {
            -1
        }
    }
}

proof fn lemma_bench_index(s: Seq<(Seq<char>, u64)>, name: Seq<char>)
    ensures
        -1 <= bench_index(s, name) < s.len(),
        bench_index(s, name) >= 0 ==> s[bench_index(s, name)].0 == name,
        forall|j: int| 0 <= j < s.len() && (bench_index(s, name) < 0 || j < bench_index(s, name))
            ==> (#[trigger] s[j]).0 != name,
    decreases s.len(),
{
    if s.len() > 0 {
        lemma_bench_index(s.drop_last(), name);
        assert forall|j: int| 0 <= j < s.len() && (bench_index(s, name) < 0 || j < bench_index(s, name))
            implies (#[trigger] s[j]).0 != name by {
            if j < s.len() - 1 {
                assert(s[j] == s.drop_last()[j]);
            }
        }
    }
}

/// The benchmarks `s` with `name` taking `ms`: the duration of an operation of
/// that name is replaced, otherwise the benchmark is appended.
pub open spec fn with_benchmark(s: Seq<(Seq<char>, u64)>, name: Seq<char>, ms: u64) -> Seq<(Seq<char>, u64)> {
    let k = bench_index(s, name);
    if k >= 0 { s.update(k, (name, ms)) } else { s.push((name, ms)) }
}

/// The benchmarks `s` after recording each of `list` in turn.
pub open spec fn with_benchmarks(s: Seq<(Seq<char>, u64)>, list: Seq<(Seq<char>, u64)>) -> Seq<(Seq<char>, u64)>
    decreases list.len(),
{
    if list.len() == 0 {
        s
    } else {
        let before = with_benchmarks(s, list.drop_last());
        with_benchmark(before, list.last().0, list.last().1)
    }
}

/// The sum of the durations of `s`.
pub open spec fn total_ms(s: Seq<(Seq<char>, u64)>) -> nat
    decreases s.len(),
{
    if s.len() == 0 {
        0
    } else {
        total_ms(s.drop_last()) + s.last().1 as nat
    }
}

/// The score of benchmarks that took `total` milliseconds together: 10000 divided
/// by the total, or 0 when it is 0.
pub open spec fn score_of_total(total: nat) -> nat {
    if total > 0 { 10000nat / total } else { 0 }
}

/// The name of the device behind a method, for the methods that have one.
pub open spec fn device_name(a: HardwareAccelType) -> Option<Seq<char>> {
    match a {
        HardwareAccelType::Nvidia => Some("NVIDIA GPU (simulated)"@),
        HardwareAccelType::Amd => Some("AMD GPU (simulated)"@),
        HardwareAccelType::Intel => Some("Intel iGPU (simulated)"@),
        HardwareAccelType::Vaapi => Some("VA-API Device (simulated)"@),
        HardwareAccelType::Dxva2 => Some("DXVA2 Device (simulated)"@),
        HardwareAccelType::VideoToolbox => Some("VideoToolbox Device (simulated)"@),
        _ => None,
    }
}

/// Whether one of the methods `s`, other than `None`, works.
pub open spec fn any_gpu_works(s: Seq<HardwareAccelType>) -> bool {
    exists|i: int| 0 <= i < s.len() && s[i] != HardwareAccelType::CpuOnly && (#[trigger] device_name(s[i])) is Some
}

/// The result of testing `a` with the benchmark measurements `benchmarks` (`None`
/// when benchmarking failed): whether it works, the device name, the error, the
/// recorded benchmarks and the score.
pub open spec fn tested(r: GpuTestResult, a: HardwareAccelType, benchmarks: Option<Seq<(Seq<char>, u64)>>) -> bool {
    &&& r.accel_type == a
    &&& device_name(a) is None ==> !r.is_available && r.gpu_name is None && r.performance_score is None
        && opt_text(r.error_message) == Some("Unsupported hardware acceleration type"@) && r.benchmark_results@.len()
        == 0
    &&& device_name(a) is Some ==> r.is_available && opt_text(r.gpu_name) == device_name(a) && r.error_message is None
        && match benchmarks {
        Some(list) => benches_view(r.benchmark_results@) == with_benchmarks(Seq::empty(), list)
            && r.performance_score == Some(score_of_total(total_ms(with_benchmarks(Seq::empty(), list))) as u32),
        None => r.benchmark_results@.len() == 0 && r.performance_score is None,
    }
}

/// The score of a result for choosing the best (0 without a score).
pub open spec fn score_or_zero(r: GpuTestResult) -> u32 {
    match r.performance_score {
        Some(s) => s,
        None => 0,
    }
}

/// Index of the best working result of `rs`: the last of those with the highest
/// score, or -1 when none works.
pub open spec fn best_index(rs: Seq<GpuTestResult>) -> int
    decreases rs.len(),
{
    if rs.len() == 0 {
        -1
    } else {
        let k = best_index(rs.drop_last());
        let r = rs.last();
        if !r.is_available {
            k
        } else if k < 0 || score_or_zero(rs[k]) <= score_or_zero(r) {
            rs.len() - 1
        } else {
            k
        }
    }
}

/// `best_index` picks a working result of the highest score, or -1 when none works.
pub proof fn lemma_best_index(rs: Seq<GpuTestResult>)
    ensures
        -1 <= best_index(rs) < rs.len(),
        best_index(rs) >= 0 ==> rs[best_index(rs)].is_available,
        best_index(rs) >= 0 ==> forall|j: int|
            0 <= j < rs.len() && (#[trigger] rs[j]).is_available ==> score_or_zero(rs[j]) <= score_or_zero(
                rs[best_index(rs)],
            ),
        best_index(rs) < 0 ==> forall|j: int| 0 <= j < rs.len() ==> !(#[trigger] rs[j]).is_available,
    decreases rs.len(),
{
    if rs.len() > 0 {
        let d = rs.drop_last();
        lemma_best_index(d);
        let k = best_index(d);
        let n = rs.len() - 1;
        assert forall|j: int| 0 <= j < n implies #[trigger] rs[j] == d[j] by {}
        if k >= 0 {
            assert(rs[k] == d[k]);
        }
        let b = best_index(rs);
        if b >= 0 {
            assert forall|j: int| 0 <= j < rs.len() && (#[trigger] rs[j]).is_available implies score_or_zero(rs[j])
                <= score_or_zero(rs[b]) by {
                if j < n {
                    assert(rs[j] == d[j]);
                    assert(d[j].is_available);
                }
            }
        } else {
            assert forall|j: int| 0 <= j < rs.len() implies !(#[trigger] rs[j]).is_available by {
                if j < n {
                    assert(rs[j] == d[j]);
                }
            }
        }
    }
}

impl GpuTestResult {
    /// A result for a method that does not work, with the reason.
    pub fn unavailable(accel_type: HardwareAccelType, error_message: String) -> (r: Self)
        ensures
            r.accel_type == accel_type,
            !r.is_available,
            r.gpu_name is None,
            r.performance_score is None,
            opt_text(r.error_message) == Some(error_message@),
            r.benchmark_results@.len() == 0,
    {
        GpuTestResult {
            accel_type,
            is_available: false,
            gpu_name: None,
            performance_score: None,
            error_message: Some(error_message),
            benchmark_results: Vec::new(),
        }
    }

    /// A result for a method that works on the device `gpu_name`.
    pub fn available(accel_type: HardwareAccelType, gpu_name: String) -> (r: Self)
        ensures
            r.accel_type == accel_type,
            r.is_available,
            opt_text(r.gpu_name) == Some(gpu_name@),
            r.performance_score is None,
            r.error_message is None,
            r.benchmark_results@.len() == 0,
    {
        GpuTestResult {
            accel_type,
            is_available: true,
            gpu_name: Some(gpu_name),
            performance_score: None,
            error_message: None,
            benchmark_results: Vec::new(),
        }
    }

    /// Records that the operation `name` took `duration_ms` milliseconds, replacing
    /// an earlier duration of that operation.
    pub fn add_benchmark(&mut self, name: &str, duration_ms: u64)
        ensures
            benches_view(final(self).benchmark_results@) == with_benchmark(
                benches_view(old(self).benchmark_results@),
                name@,
                duration_ms,
            ),
            final(self).accel_type == old(self).accel_type,
            final(self).is_available == old(self).is_available,
            final(self).gpu_name == old(self).gpu_name,
            final(self).performance_score == old(self).performance_score,
            final(self).error_message == old(self).error_message,
    {
        let ghost s = benches_view(self.benchmark_results@);
        proof {
            lemma_bench_index(s, name@);
        }
        let mut i: usize = 0;
        while i < self.benchmark_results.len()
            invariant
                0 <= i <= self.benchmark_results.len(),
                s == benches_view(self.benchmark_results@),
                s == benches_view(old(self).benchmark_results@),
                self.benchmark_results@ == old(self).benchmark_results@,
                self.accel_type == old(self).accel_type,
                self.is_available == old(self).is_available,
                self.gpu_name == old(self).gpu_name,
                self.performance_score == old(self).performance_score,
                self.error_message == old(self).error_message,
                forall|j: int| 0 <= j < i ==> (#[trigger] s[j]).0 != name@,
            decreases self.benchmark_results.len() - i,
        {
            if str_eq(self.benchmark_results[i].0.as_str(), name) {
                proof {
                    lemma_bench_index(s, name@);
                    assert(s[i as int].0 == name@);
                    let k = bench_index(s, name@);
                    if k >= 0 && k < i {
                        assert(s[k].0 == name@);
                    }
                }
                self.benchmark_results.set(i, (name.to_string(), duration_ms));
                assert(benches_view(self.benchmark_results@) =~= s.update(i as int, (name@, duration_ms)));
                return;
            }
            assert(s[i as int].0 == self.benchmark_results@[i as int].0@);
            i = i + 1;
        }
        self.benchmark_results.push((name.to_string(), duration_ms));
        assert(benches_view(self.benchmark_results@) =~= s.push((name@, duration_ms)));
    }

    /// Sets the performance score.
    pub fn set_performance_score(&mut self, score: u32)
        ensures
            final(self).performance_score == Some(score),
            final(self).accel_type == old(self).accel_type,
            final(self).is_available == old(self).is_available,
            final(self).gpu_name == old(self).gpu_name,
            final(self).error_message == old(self).error_message,
            final(self).benchmark_results == old(self).benchmark_results,
    {
        self.performance_score = Some(score);
    }

    /// A copy of the result.
    pub fn duplicate(&self) -> (r: Self)
        ensures
            r.accel_type == self.accel_type,
            r.is_available == self.is_available,
            opt_text(r.gpu_name) == opt_text(self.gpu_name),
            r.performance_score == self.performance_score,
            opt_text(r.error_message) == opt_text(self.error_message),
            benches_view(r.benchmark_results@) == benches_view(self.benchmark_results@),
    {
        let mut benches: Vec<(String, u64)> = Vec::new();
        let mut i: usize = 0;
        while i < self.benchmark_results.len()
            invariant
                0 <= i <= self.benchmark_results.len(),
                benches@.len() == i,
                forall|j: int| 0 <= j < i ==> (#[trigger] benches@[j]).0@ == self.benchmark_results@[j].0@
                    && benches@[j].1 == self.benchmark_results@[j].1,
            decreases self.benchmark_results.len() - i,
        {
            let name = self.benchmark_results[i].0.clone();
            benches.push((name, self.benchmark_results[i].1));
            i = i + 1;
        }
        assert(benches_view(benches@) =~= benches_view(self.benchmark_results@));
        GpuTestResult {
            accel_type: self.accel_type,
            is_available: self.is_available,
            gpu_name: match &self.gpu_name {
                Some(s) => Some(s.clone()),
                None => None,
            },
            performance_score: self.performance_score,
            error_message: match &self.error_message {
                Some(s) => Some(s.clone()),
                None => None,
            },
            benchmark_results: benches,
        }
    }
}

/// Whether two texts are equal.
fn str_eq(a: &str, b: &str) -> (r: bool)
    ensures
        r == (a@ == b@),
{
    let x = crate::utility::text::chars_of(a);
    let y = crate::utility::text::chars_of(b);
    if x.len() != y.len() {
        return false;
    }
    let mut i: usize = 0;
    while i < x.len()
        invariant
            0 <= i <= x.len(),
            x.len() == y.len(),
            x@ == a@,
            y@ == b@,
            forall|j: int| 0 <= j < i ==> x@[j] == y@[j],
        decreases x.len() - i,
    {
        if x[i] != y[i] {
            assert(x@[i as int] != y@[i as int]);
            return false;
        }
        i = i + 1;
    }
    assert(x@ =~= y@);
    true
}

/// The test results of the methods of a machine.
#[derive(Debug)]
pub struct GpuTestEnvironment {
    available_accel_types: Vec<HardwareAccelType>,
    results: Vec<GpuTestResult>,
}

/// A test environment as a value: the methods found on the machine and the
/// results, one per tested method, in the order first recorded.
pub struct GpuTestEnvironmentView {
    pub available: Seq<HardwareAccelType>,
    pub results: Seq<GpuTestResult>,
}

impl View for GpuTestEnvironment {
    type V = GpuTestEnvironmentView;

    closed spec fn view(&self) -> GpuTestEnvironmentView {
        GpuTestEnvironmentView { available: self.available_accel_types@, results: self.results@ }
    }
}

/// Index of the result for `a` in `rs`, or -1.
pub open spec fn test_index(rs: Seq<GpuTestResult>, a: HardwareAccelType) -> int
    decreases rs.len(),
{
    if rs.len() == 0 {
        -1
    } else {
        let k = test_index(rs.drop_last(), a);
        if k >= 0 {
            k
        } else if rs.last().accel_type == a {
            rs.len() - 1
        } else {
            -1
        }
    }
}

proof fn lemma_test_index(rs: Seq<GpuTestResult>, a: HardwareAccelType)
    ensures
        -1 <= test_index(rs, a) < rs.len(),
        test_index(rs, a) >= 0 ==> rs[test_index(rs, a)].accel_type == a,
        forall|j: int| 0 <= j < rs.len() && (test_index(rs, a) < 0 || j < test_index(rs, a))
            ==> (#[trigger] rs[j]).accel_type != a,
    decreases rs.len(),
{
    if rs.len() > 0 {
        lemma_test_index(rs.drop_last(), a);
        assert forall|j: int| 0 <= j < rs.len() && (test_index(rs, a) < 0 || j < test_index(rs, a))
            implies (#[trigger] rs[j]).accel_type != a by {
            if j < rs.len() - 1 {
                assert(rs[j] == rs.drop_last()[j]);
            }
        }
    }
}

/// The benchmark measurements as texts.
pub open spec fn measured(m: Option<Vec<(String, u64)>>) -> Option<Seq<(Seq<char>, u64)>> {
    match m {
        Some(v) => Some(benches_view(v@)),
        None => None,
    }
}

/// Whether the benchmark measurements of one method add up without overflow.
pub open spec fn measurement_fits(m: Option<Vec<(String, u64)>>) -> bool {
    match m {
        Some(v) => total_ms(with_benchmarks(Seq::empty(), benches_view(v@))) <= u64::MAX,
        None => true,
    }
}

/// The results `rs` with `r` recorded: it replaces the result for the same method,
/// or is appended.
pub open spec fn with_test(rs: Seq<GpuTestResult>, r: GpuTestResult) -> Seq<GpuTestResult> {
    let k = test_index(rs, r.accel_type);
    if k >= 0 { rs.update(k, r) } else { rs.push(r) }
}

proof fn lemma_total_update(s: Seq<(Seq<char>, u64)>, k: int, p: (Seq<char>, u64))
    requires
        0 <= k < s.len(),
    ensures
        total_ms(s.update(k, p)) == total_ms(s) - s[k].1 + p.1,
    decreases s.len(),
{
    let u = s.update(k, p);
    if k == s.len() - 1 {
        assert(u.drop_last() == s.drop_last());
    } else {
        assert(u.drop_last() =~= s.drop_last().update(k, p));
        lemma_total_update(s.drop_last(), k, p);
    }
}

/// Index of the last occurrence of `a` in `types`, or -1.
pub open spec fn last_index_of(types: Seq<HardwareAccelType>, a: HardwareAccelType) -> int
    decreases types.len(),
{
    if types.len() == 0 {
        -1
    } else if types.last() == a {
        types.len() - 1
    } else {
        last_index_of(types.drop_last(), a)
    }
}

proof fn lemma_last_index_of(types: Seq<HardwareAccelType>, a: HardwareAccelType)
    ensures
        -1 <= last_index_of(types, a) < types.len(),
        last_index_of(types, a) >= 0 ==> types[last_index_of(types, a)] == a,
    decreases types.len(),
{
    if types.len() > 0 {
        lemma_last_index_of(types.drop_last(), a);
    }
}

/// A method found at index `j` is last found at `j` or later.
proof fn lemma_last_index_at(types: Seq<HardwareAccelType>, j: int)
    requires
        0 <= j < types.len(),
    ensures
        last_index_of(types, types[j]) >= j,
    decreases types.len(),
{
    if j < types.len() - 1 && types.last() != types[j] {
        assert(types.drop_last()[j] == types[j]);
        lemma_last_index_at(types.drop_last(), j);
    }
}

/// Whether each method has at most one result in `rs`.
pub open spec fn results_distinct(rs: Seq<GpuTestResult>) -> bool {
    forall|k: int| 0 <= k < rs.len() ==> test_index(rs, (#[trigger] rs[k]).accel_type) == k
}

/// Recording a result keeps each method to at most one result.
proof fn lemma_with_test_distinct(rs: Seq<GpuTestResult>, r: GpuTestResult)
    requires
        results_distinct(rs),
    ensures
        results_distinct(with_test(rs, r)),
{
    lemma_with_test(rs, r);
    lemma_test_index(rs, r.accel_type);
    let w = with_test(rs, r);
    let at = if test_index(rs, r.accel_type) >= 0 { test_index(rs, r.accel_type) } else { rs.len() as int };
    assert forall|k: int| 0 <= k < w.len() implies test_index(w, (#[trigger] w[k]).accel_type) == k by {
        if k != at {
            assert(w[k] == rs[k]);
            if rs[k].accel_type == r.accel_type {
                assert(test_index(rs, rs[k].accel_type) == k);
            }
        }
    }
}

/// The score that a working method `a` gets from its measurement: that of the last
/// index where `types` holds it (0 when benchmarking failed).
pub open spec fn method_score(
    types: Seq<HardwareAccelType>,
    bs: Seq<Option<Vec<(String, u64)>>>,
    a: HardwareAccelType,
) -> u32 {
    match measured(bs[last_index_of(types, a)]) {
        Some(list) => score_of_total(total_ms(with_benchmarks(Seq::empty(), list))) as u32,
        None => 0,
    }
}

/// Whether `r` is the result of testing its method, found at an index below `n`
/// of `types`, with the measurement of that index.
pub open spec fn entry_tested(
    r: GpuTestResult,
    types: Seq<HardwareAccelType>,
    bs: Seq<Option<Vec<(String, u64)>>>,
    n: int,
) -> bool {
    exists|j: int|
        0 <= j < n && types[j] == r.accel_type && r.accel_type != HardwareAccelType::CpuOnly && tested(
            r,
            r.accel_type,
            measured(#[trigger] bs[j]),
        )
}

/// Whether `r` is a copy of `s`.
pub open spec fn same_result(r: GpuTestResult, s: GpuTestResult) -> bool {
    &&& r.accel_type == s.accel_type
    &&& r.is_available == s.is_available
    &&& opt_text(r.gpu_name) == opt_text(s.gpu_name)
    &&& r.performance_score == s.performance_score
    &&& opt_text(r.error_message) == opt_text(s.error_message)
    &&& benches_view(r.benchmark_results@) == benches_view(s.benchmark_results@)
}

proof fn lemma_test_index_update(rs: Seq<GpuTestResult>, k: int, r: GpuTestResult, a: HardwareAccelType)
    requires
        0 <= k < rs.len(),
        r.accel_type == rs[k].accel_type,
    ensures
        test_index(rs.update(k, r), a) == test_index(rs, a),
    decreases rs.len(),
{
    let u = rs.update(k, r);
    if k == rs.len() - 1 {
        assert(u.drop_last() =~= rs.drop_last());
    } else {
        assert(u.drop_last() =~= rs.drop_last().update(k, r));
        lemma_test_index_update(rs.drop_last(), k, r, a);
    }
}

/// Where `with_test` puts a result, and that it leaves the others in place.
proof fn lemma_with_test(rs: Seq<GpuTestResult>, r: GpuTestResult)
    ensures
        ({
            let w = with_test(rs, r);
            let at = if test_index(rs, r.accel_type) >= 0 { test_index(rs, r.accel_type) } else { rs.len() as int };
            &&& w.len() >= rs.len()
            &&& test_index(w, r.accel_type) == at
            &&& w[at] == r
            &&& forall|b: HardwareAccelType| b != r.accel_type ==> #[trigger] test_index(w, b) == test_index(rs, b)
            &&& forall|k: int| 0 <= k < w.len() && (#[trigger] w[k]).accel_type != r.accel_type ==> k < rs.len() && w[k]
                == rs[k]
            &&& forall|k: int| 0 <= k < w.len() && k != at ==> k < rs.len() && #[trigger] w[k] == rs[k]
            &&& at < w.len()
        }),
{
    lemma_test_index(rs, r.accel_type);
    let k0 = test_index(rs, r.accel_type);
    if k0 >= 0 {
        assert forall|b: HardwareAccelType| true implies #[trigger] test_index(rs.update(k0, r), b) == test_index(rs, b) by {
            lemma_test_index_update(rs, k0, r, b);
        }
    } else {
        let w = rs.push(r);
        assert(w.drop_last() == rs);
    }
}

impl GpuTestEnvironment {
    /// Creates an environment for a machine with the methods `available_accel_types`,
    /// without results.
    pub fn new(available_accel_types: Vec<HardwareAccelType>) -> (e: Self)
        ensures
            e@.available == available_accel_types@,
            e@.results == Seq::<GpuTestResult>::empty(),
    {
        GpuTestEnvironment { available_accel_types, results: Vec::new() }
    }

    /// Tests the method `accel_type`, given the durations its benchmark operations
    /// took (`None` when benchmarking failed); see `tested`.
    pub fn test_gpu(&self, accel_type: HardwareAccelType, benchmarks: Option<Vec<(String, u64)>>) -> (r: GpuTestResult)
        requires
            measurement_fits(benchmarks),
        ensures
            tested(r, accel_type, measured(benchmarks)),
    {
        let name = match device_name_of(accel_type) {
            Some(n) => n,
            None => {
                let mut out: Vec<char> = Vec::new();
                push_str(&mut out, "Unsupported hardware acceleration type");
                return GpuTestResult::unavailable(accel_type, string_from_chars(&out));
            },
        };
        let mut result = GpuTestResult::available(accel_type, name.to_string());
        match benchmarks {
            Some(list) => {
                let ghost l = benches_view(list@);
                let mut i: usize = 0;
                assert(l.take(0) =~= Seq::<(Seq<char>, u64)>::empty());
                assert(benches_view(result.benchmark_results@) =~= Seq::<(Seq<char>, u64)>::empty());
                while i < list.len()
                    invariant
                        0 <= i <= list.len(),
                        l == benches_view(list@),
                        benches_view(result.benchmark_results@) == with_benchmarks(Seq::empty(), l.take(i as int)),
                        result.accel_type == accel_type,
                        result.is_available,
                        opt_text(result.gpu_name) == Some(name@),
                        result.performance_score is None,
                        result.error_message is None,
                    decreases list.len() - i,
                {
                    assert(l.take(i + 1).drop_last() == l.take(i as int));
                    assert(l.take(i + 1).last() == (list@[i as int].0@, list@[i as int].1));
                    result.add_benchmark(list[i].0.as_str(), list[i].1);
                    i = i + 1;
                }
                assert(l.take(l.len() as int) == l);
                let total = sum_benchmarks(&result.benchmark_results);
                let score: u64 = if total > 0 { 10000 / total } else { 0 };
                result.set_performance_score(score as u32);
            },
            None => {},
        }
        result
    }

    /// Tests each method found on the machine but `None`, with the benchmark
    /// measurements `benchmarks[i]` for the method at index `i` (the last
    /// measurement of a method that occurs twice counts), records the results
    /// (replacing those of the same method) and returns a copy of all results.
    pub fn test_all_gpus(&mut self, benchmarks: &Vec<Option<Vec<(String, u64)>>>) -> (r: Vec<GpuTestResult>)
        requires
            benchmarks@.len() == old(self)@.available.len(),
            forall|i: int| 0 <= i < benchmarks@.len() ==> measurement_fits(#[trigger] benchmarks@[i]),
        ensures
            final(self)@.available == old(self)@.available,
            forall|a: HardwareAccelType|
                a != HardwareAccelType::CpuOnly && #[trigger] last_index_of(old(self)@.available, a) >= 0 ==> test_index(
                    final(self)@.results,
                    a,
                ) >= 0 && tested(
                    final(self)@.results[test_index(final(self)@.results, a)],
                    a,
                    measured(benchmarks@[last_index_of(old(self)@.available, a)]),
                ),
            forall|k: int|
                0 <= k < final(self)@.results.len() ==> entry_tested(
                    #[trigger] final(self)@.results[k],
                    old(self)@.available,
                    benchmarks@,
                    old(self)@.available.len() as int,
                ) || (k < old(self)@.results.len() && final(self)@.results[k] == old(self)@.results[k]),
            results_distinct(old(self)@.results) ==> results_distinct(final(self)@.results),
            r@.len() == final(self)@.results.len(),
            forall|k: int| 0 <= k < r@.len() ==> same_result(#[trigger] r@[k], final(self)@.results[k]),
    {
        let ghost types = self.available_accel_types@;
        let ghost bs = benchmarks@;
        let mut i: usize = 0;
        while i < self.available_accel_types.len()
            invariant
                0 <= i <= self.available_accel_types.len(),
                self.available_accel_types@ == types,
                types == old(self)@.available,
                bs == benchmarks@,
                bs.len() == types.len(),
                forall|j: int| 0 <= j < bs.len() ==> measurement_fits(#[trigger] bs[j]),
                forall|a: HardwareAccelType|
                    a != HardwareAccelType::CpuOnly && #[trigger] last_index_of(types.take(i as int), a) >= 0 ==> test_index(
                        self.results@,
                        a,
                    ) >= 0 && tested(
                        self.results@[test_index(self.results@, a)],
                        a,
                        measured(bs[last_index_of(types.take(i as int), a)]),
                    ),
                forall|k: int|
                    0 <= k < self.results@.len() ==> entry_tested(#[trigger] self.results@[k], types, bs, i as int) || (k
                        < old(self)@.results.len() && self.results@[k] == old(self)@.results[k]),
                results_distinct(old(self)@.results) ==> results_distinct(self.results@),
            decreases self.available_accel_types.len() - i,
        {
            let a = self.available_accel_types[i];
            proof {
                assert(types.take(i + 1).drop_last() == types.take(i as int));
                assert(types.take(i + 1).last() == a);
            }
            if a != HardwareAccelType::CpuOnly {
                let m = clone_measurement(&benchmarks[i]);
                let ghost m_view = m;
                let result = self.test_gpu(a, m);
                let ghost before = self.results@;
                proof {
                    lemma_with_test(before, result);
                    if results_distinct(before) {
                        lemma_with_test_distinct(before, result);
                    }
                }
                self.record_result(result);
                proof {
                    let after = self.results@;
                    assert forall|b: HardwareAccelType|
                        b != HardwareAccelType::CpuOnly && #[trigger] last_index_of(types.take(i + 1), b) >= 0
                        implies test_index(after, b) >= 0 && tested(
                        after[test_index(after, b)],
                        b,
                        measured(bs[last_index_of(types.take(i + 1), b)]),
                    ) by {
                        lemma_test_index(before, b);
                        lemma_test_index(before, a);
                        if b != a {
                            assert(last_index_of(types.take(i + 1), b) == last_index_of(types.take(i as int), b));
                            let t = test_index(before, b);
                            assert(after[t] == before[t]);
                        } else {
                            assert(last_index_of(types.take(i + 1), b) == i);
                            assert(measured(bs[i as int]) == measured(m_view));
                        }
                    }
                    assert forall|k: int| 0 <= k < after.len() implies entry_tested(
                        #[trigger] after[k],
                        types,
                        bs,
                        i + 1,
                    ) || (k < old(self)@.results.len() && after[k] == old(self)@.results[k]) by {
                        if k < before.len() && after[k] == before[k] {
                            if entry_tested(before[k], types, bs, i as int) {
                                let j = choose|j: int| 0 <= j < i && types[j] == before[k].accel_type
                                    && before[k].accel_type != HardwareAccelType::CpuOnly && tested(
                                    before[k],
                                    before[k].accel_type,
                                    measured(bs[j]),
                                );
                                assert(0 <= j < i + 1 && types[j] == after[k].accel_type);
                            }
                        } else {
                            let at = if test_index(before, a) >= 0 { test_index(before, a) } else { before.len() as int };
                            assert(k == at);
                            assert(after[k] == result);
                            assert(types[i as int] == a);
                        }
                    }
                }
            } else {
                proof {
                    assert forall|b: HardwareAccelType|
                        b != HardwareAccelType::CpuOnly implies #[trigger] last_index_of(types.take(i + 1), b)
                        == last_index_of(types.take(i as int), b) by {}
                    assert forall|k: int| 0 <= k < self.results@.len() && entry_tested(
                        #[trigger] self.results@[k],
                        types,
                        bs,
                        i as int,
                    ) implies entry_tested(self.results@[k], types, bs, i + 1) by {
                        let r = self.results@[k];
                        let j = choose|j: int| 0 <= j < i && types[j] == r.accel_type
                            && r.accel_type != HardwareAccelType::CpuOnly && tested(r, r.accel_type, measured(bs[j]));
                        assert(0 <= j < i + 1);
                    }
                }
            }
            i = i + 1;
        }
        assert(types.take(types.len() as int) == types);
        let mut out: Vec<GpuTestResult> = Vec::new();
        let mut k: usize = 0;
        while k < self.results.len()
            invariant
                0 <= k <= self.results.len(),
                out@.len() == k,
                forall|j: int| 0 <= j < k ==> same_result(#[trigger] out@[j], self.results@[j]),
            decreases self.results.len() - k,
        {
            out.push(self.results[k].duplicate());
            k = k + 1;
        }
        out
    }

    fn record_result(&mut self, result: GpuTestResult)
        ensures
            final(self)@ == (GpuTestEnvironmentView {
                results: with_test(old(self)@.results, result),
                ..old(self)@
            }),
    {
        proof {
            lemma_test_index(self.results@, result.accel_type);
        }
        let mut k: usize = 0;
        while k < self.results.len()
            invariant
                0 <= k <= self.results.len(),
                self.results@ == old(self).results@,
                self.available_accel_types@ == old(self).available_accel_types@,
                forall|j: int| 0 <= j < k ==> (#[trigger] self.results@[j]).accel_type != result.accel_type,
            decreases self.results.len() - k,
        {
            if self.results[k].accel_type == result.accel_type {
                proof {
                    lemma_test_index(self.results@, result.accel_type);
                    let x = test_index(self.results@, result.accel_type);
                    if x >= 0 && x < k {
                        assert(self.results@[x].accel_type == result.accel_type);
                    }
                }
                self.results.set(k, result);
                return;
            }
            k = k + 1;
        }
        self.results.push(result);
    }

    /// The best working method: among the working results, the last of those with
    /// the highest score (see `best_index`); `None` when none works.
    pub fn get_best_gpu(&self) -> (r: Option<HardwareAccelType>)
        ensures
            best_index(self@.results) < 0 ==> r is None,
            best_index(self@.results) >= 0 ==> r == Some(self@.results[best_index(self@.results)].accel_type),
    {
        let ghost rs = self.results@;
        let mut best: Option<usize> = None;
        let mut i: usize = 0;
        assert(rs.take(0) =~= Seq::<GpuTestResult>::empty());
        while i < self.results.len()
            invariant
                0 <= i <= self.results.len(),
                rs == self.results@,
                match best {
                    Some(b) => best_index(rs.take(i as int)) == b && b < i,
                    None => best_index(rs.take(i as int)) == -1,
                },
            decreases self.results.len() - i,
        {
            let ghost t = rs.take(i as int + 1);
            assert(t.drop_last() == rs.take(i as int));
            assert(t.last() == rs[i as int]);
            if self.results[i].is_available {
                match best {
                    None => {
                        best = Some(i);
                    },
                    Some(b) => {
                        assert(t[b as int] == rs[b as int]);
                        let sb = match self.results[b].performance_score {
                            Some(s) => s,
                            None => 0,
                        };
                        let si = match self.results[i].performance_score {
                            Some(s) => s,
                            None => 0,
                        };
                        if sb <= si {
                            best = Some(i);
                        }
                    },
                }
            }
            i = i + 1;
        }
        assert(rs.take(rs.len() as int) == rs);
        match best {
            Some(b) => Some(self.results[b].accel_type),
            None => None,
        }
    }

    /// The results, one per tested method.
    pub fn get_results(&self) -> (s: &[GpuTestResult])
        ensures
            s@ == self@.results,
    {
        self.results.as_slice()
    }

    /// The result for the method `accel_type`, if it was tested.
    pub fn get_result(&self, accel_type: HardwareAccelType) -> (r: Option<&GpuTestResult>)
        ensures
            test_index(self@.results, accel_type) < 0 ==> r is None,
            test_index(self@.results, accel_type) >= 0 ==> r == Some(
                &self@.results[test_index(self@.results, accel_type)],
            ),
    {
        proof {
            lemma_test_index(self.results@, accel_type);
        }
        let mut k: usize = 0;
        while k < self.results.len()
            invariant
                0 <= k <= self.results.len(),
                forall|j: int| 0 <= j < k ==> (#[trigger] self.results@[j]).accel_type != accel_type,
            decreases self.results.len() - k,
        {
            if self.results[k].accel_type == accel_type {
                proof {
                    lemma_test_index(self.results@, accel_type);
                    let x = test_index(self.results@, accel_type);
                    if x >= 0 && x < k {
                        assert(self.results@[x].accel_type == accel_type);
                    }
                }
                return Some(&self.results[k]);
            }
            k = k + 1;
        }
        None
    }
}

fn clone_measurement(m: &Option<Vec<(String, u64)>>) -> (r: Option<Vec<(String, u64)>>)
    ensures
        measured(r) == measured(*m),
{
    match m {
        Some(v) => {
            let mut out: Vec<(String, u64)> = Vec::new();
            let mut i: usize = 0;
            while i < v.len()
                invariant
                    0 <= i <= v.len(),
                    out@.len() == i,
                    forall|j: int| 0 <= j < i ==> (#[trigger] out@[j]).0@ == v@[j].0@ && out@[j].1 == v@[j].1,
                decreases v.len() - i,
            {
                out.push((v[i].0.clone(), v[i].1));
                i = i + 1;
            }
            assert(benches_view(out@) =~= benches_view(v@));
            Some(out)
        },
        None => None,
    }
}

fn sum_benchmarks(v: &Vec<(String, u64)>) -> (t: u64)
    requires
        total_ms(benches_view(v@)) <= u64::MAX,
    ensures
        t == total_ms(benches_view(v@)),
{
    let ghost s = benches_view(v@);
    let mut t: u64 = 0;
    let mut i: usize = 0;
    assert(s.take(0) =~= Seq::<(Seq<char>, u64)>::empty());
    while i < v.len()
        invariant
            0 <= i <= v.len(),
            s == benches_view(v@),
            total_ms(s) <= u64::MAX,
            t == total_ms(s.take(i as int)),
        decreases v.len() - i,
    {
        assert(s.take(i + 1).drop_last() == s.take(i as int));
        proof {
            lemma_total_prefix(s, i as int + 1);
        }
        t = t + v[i].1;
        i = i + 1;
    }
    assert(s.take(s.len() as int) == s);
    t
}

proof fn lemma_total_prefix(s: Seq<(Seq<char>, u64)>, n: int)
    requires
        0 <= n <= s.len(),
    ensures
        total_ms(s.take(n)) <= total_ms(s),
    decreases s.len(),
{
    if n < s.len() {
        assert(s.drop_last().take(n) == s.take(n));
        lemma_total_prefix(s.drop_last(), n);
    } else {
        assert(s.take(n) == s);
    }
}

fn device_name_of(a: HardwareAccelType) -> (r: Option<&'static str>)
    ensures
        match r {
            Some(s) => device_name(a) == Some(s@),
            None => device_name(a) is None,
        },
{
    match a {
        HardwareAccelType::Nvidia => Some("NVIDIA GPU (simulated)"),
        HardwareAccelType::Amd => Some("AMD GPU (simulated)"),
        HardwareAccelType::Intel => Some("Intel iGPU (simulated)"),
        HardwareAccelType::Vaapi => Some("VA-API Device (simulated)"),
        HardwareAccelType::Dxva2 => Some("DXVA2 Device (simulated)"),
        HardwareAccelType::VideoToolbox => Some("VideoToolbox Device (simulated)"),
        _ => None,
    }
}

/// Whether one of the methods found on the machine, other than `None`, works.
pub fn has_gpu_support(available_types: &Vec<HardwareAccelType>) -> (b: bool)
    ensures
        b == any_gpu_works(available_types@),
{
    let mut i: usize = 0;
    while i < available_types.len()
        invariant
            0 <= i <= available_types.len(),
            forall|j: int|
                0 <= j < i ==> !(available_types@[j] != HardwareAccelType::CpuOnly && (#[trigger] device_name(
                    available_types@[j],
                )) is Some),
        decreases available_types.len() - i,
    {
        let a = available_types[i];
        if a != HardwareAccelType::CpuOnly && device_name_of(a).is_some() {
            assert(device_name(available_types@[i as int]) is Some);
            return true;
        }
        i = i + 1;
    }
    false
}

/// The method to use on a machine with the methods `available_types`, given the
/// benchmark measurements of each (`benchmarks[i]` for the method at index `i`):
/// the best working one found by `test_all_gpus` and `get_best_gpu`, or `None`.
pub fn select_best_hardware_acceleration(
    available_types: Vec<HardwareAccelType>,
    benchmarks: &Vec<Option<Vec<(String, u64)>>>,
) -> (r: HardwareAccelType)
    requires
        benchmarks@.len() == available_types@.len(),
        forall|i: int| 0 <= i < benchmarks@.len() ==> measurement_fits(#[trigger] benchmarks@[i]),
    ensures
        (r == HardwareAccelType::CpuOnly) <==> !any_gpu_works(available_types@),
        r != HardwareAccelType::CpuOnly ==> available_types@.contains(r) && device_name(r) is Some,
        r != HardwareAccelType::CpuOnly ==> forall|j: int|
            0 <= j < available_types@.len() && available_types@[j] != HardwareAccelType::CpuOnly && (
            #[trigger] device_name(available_types@[j])) is Some ==> method_score(
                available_types@,
                benchmarks@,
                available_types@[j],
            ) <= method_score(available_types@, benchmarks@, r),
{
    let ghost types = available_types@;
    let ghost bs = benchmarks@;
    let mut env = GpuTestEnvironment::new(available_types);
    let _ = env.test_all_gpus(benchmarks);
    let ghost rs = env@.results;
    proof {
        lemma_best_index(rs);
        assert(results_distinct(Seq::<GpuTestResult>::empty()));
        // Every working method found on the machine has a working result, scored
        // from its last measurement.
        assert forall|j: int|
            0 <= j < types.len() && types[j] != HardwareAccelType::CpuOnly && (#[trigger] device_name(types[j]))
                is Some implies test_index(rs, types[j]) >= 0 && rs[test_index(rs, types[j])].is_available
                && score_or_zero(rs[test_index(rs, types[j])]) == method_score(types, bs, types[j]) by {
            lemma_last_index_at(types, j);
            lemma_last_index_of(types, types[j]);
            lemma_test_index(rs, types[j]);
            assert(last_index_of(types, types[j]) >= 0);
        }
        if any_gpu_works(types) {
            let j = choose|j: int|
                0 <= j < types.len() && types[j] != HardwareAccelType::CpuOnly && (#[trigger] device_name(types[j]))
                    is Some;
            let t = test_index(rs, types[j]);
            lemma_test_index(rs, types[j]);
            assert(rs[t].is_available);
            assert(best_index(rs) >= 0);
        }
        let b = best_index(rs);
        if b >= 0 {
            let rb = rs[b];
            assert(entry_tested(rb, types, bs, types.len() as int));
            let j = choose|j: int|
                0 <= j < types.len() && types[j] == rb.accel_type && rb.accel_type != HardwareAccelType::CpuOnly
                    && tested(rb, rb.accel_type, measured(#[trigger] bs[j]));
            assert(device_name(rb.accel_type) is Some);
            assert(types[j] == rb.accel_type);
            assert(test_index(rs, rb.accel_type) == b);
            lemma_last_index_at(types, j);
            assert(any_gpu_works(types));
            assert(score_or_zero(rb) == method_score(types, bs, rb.accel_type));
            assert forall|i: int|
                0 <= i < types.len() && types[i] != HardwareAccelType::CpuOnly && (#[trigger] device_name(types[i]))
                    is Some implies method_score(types, bs, types[i]) <= method_score(types, bs, rb.accel_type) by {
                let t = test_index(rs, types[i]);
                lemma_test_index(rs, types[i]);
                assert(rs[t].is_available);
                assert(score_or_zero(rs[t]) == method_score(types, bs, types[i]));
                assert(score_or_zero(rs[t]) <= score_or_zero(rs[b]));
            }
            assert(types.contains(rb.accel_type));
        }
    }
    match env.get_best_gpu() {
        Some(a) => a,
        None => HardwareAccelType::CpuOnly,
    }
}

/// The encoder command that makes a test video: its input options, output options,
/// output path and whether it overwrites.
pub struct TestVideoCommand {
    pub input_options: Vec<String>,
    pub output_options: Vec<String>,
    pub output: String,
    pub overwrite: bool,
}

/// The command that makes a synthetic test video of `duration_secs` seconds at
/// 1280x720 and 30 frames per second in H.264, written to `output_path`.
pub fn create_test_video(output_path: &str, duration_secs: u32) -> (c: TestVideoCommand)
    ensures
        strings_view(c.input_options@) == seq![
            "-f"@,
            "lavfi"@,
            "-i"@,
            "testsrc=duration="@ + decimal(duration_secs as nat) + ":size=1280x720:rate=30"@,
        ],
        strings_view(c.output_options@) == seq!["-c:v"@, "libx264"@, "-pix_fmt"@, "yuv420p"@],
        c.output@ == output_path@,
        c.overwrite,
{
    let mut input: Vec<String> = Vec::new();
    push_text(&mut input, "-f");
    push_text(&mut input, "lavfi");
    push_text(&mut input, "-i");
    let mut src: Vec<char> = Vec::new();
    push_str(&mut src, "testsrc=duration=");
    push_decimal(&mut src, duration_secs as u64);
    push_str(&mut src, ":size=1280x720:rate=30");
    crate::utility::text::push_string(&mut input, string_from_chars(&src));
    let mut output: Vec<String> = Vec::new();
    push_text(&mut output, "-c:v");
    push_text(&mut output, "libx264");
    push_text(&mut output, "-pix_fmt");
    push_text(&mut output, "yuv420p");
    assert(strings_view(input@) =~= seq![
        "-f"@,
        "lavfi"@,
        "-i"@,
        "testsrc=duration="@ + decimal(duration_secs as nat) + ":size=1280x720:rate=30"@,
    ]);
    assert(strings_view(output@) =~= seq!["-c:v"@, "libx264"@, "-pix_fmt"@, "yuv420p"@]);
    TestVideoCommand { input_options: input, output_options: output, output: output_path.to_string(), overwrite: true }
}

/// `true` or `false`.
pub open spec fn bool_text(b: bool) -> Seq<char> {
    if b {
        "true"@
    } else {
        "false"@
    }
}

/// The number of results of `rs` whose method works.
pub open spec fn count_available(rs: Seq<GpuTestResult>) -> nat
    decreases rs.len(),
{
    if rs.len() == 0 {
        0
    } else {
        count_available(rs.drop_last()) + if rs.last().is_available {
            1nat
        } else {
            0nat
        }
    }
}

/// The report lines of the benchmarks `bs`: `  - <name>: <ms>ms` each.
pub open spec fn bench_lines(bs: Seq<(String, u64)>) -> Seq<char>
    decreases bs.len(),
{
    if bs.len() == 0 {
        Seq::empty()
    } else {
        bench_lines(bs.drop_last()) + "  - "@ + bs.last().0@ + ": "@ + decimal(bs.last().1 as nat) + "ms\n"@
    }
}

/// A report line `prefix` + the text, when there is a text.
pub open spec fn optional_line(prefix: Seq<char>, text: Option<String>) -> Seq<char> {
    match text {
        Some(t) => prefix + t@ + "\n"@,
        None => Seq::empty(),
    }
}

/// The head of the report section of a result: the method and whether it works.
pub open spec fn section_head(r: GpuTestResult) -> Seq<char> {
    "### "@ + accel_label(r.accel_type) + "\n\n"@ + "- Available: "@ + bool_text(r.is_available) + "\n"@
}

/// The score line of the report section of a result, if it has a score.
pub open spec fn score_line(r: GpuTestResult) -> Seq<char> {
    match r.performance_score {
        Some(sc) => "- Performance Score: "@ + decimal(sc as nat) + "\n"@,
        None => Seq::empty(),
    }
}

/// The benchmark lines of the report section of a result, if it has benchmarks.
pub open spec fn bench_block(r: GpuTestResult) -> Seq<char> {
    if r.benchmark_results@.len() > 0 {
        "- Benchmark Results:\n"@ + bench_lines(r.benchmark_results@)
    } else {
        Seq::empty()
    }
}

/// The report section of one result.
pub open spec fn result_section(r: GpuTestResult) -> Seq<char> {
    section_head(r) + optional_line("- GPU Name: "@, r.gpu_name) + score_line(r) + bench_block(r) + optional_line(
        "- Error: "@,
        r.error_message,
    ) + "\n"@
}

/// The report sections of the results `rs`, in order.
pub open spec fn report_sections(rs: Seq<GpuTestResult>) -> Seq<char>
    decreases rs.len(),
{
    if rs.len() == 0 {
        Seq::empty()
    } else {
        report_sections(rs.drop_last()) + result_section(rs.last())
    }
}

/// No method works exactly when no result counts as working.
proof fn lemma_count_available(rs: Seq<GpuTestResult>)
    ensures
        count_available(rs) == 0 <==> forall|j: int| 0 <= j < rs.len() ==> !(#[trigger] rs[j]).is_available,
    decreases rs.len(),
{
    if rs.len() > 0 {
        let d = rs.drop_last();
        lemma_count_available(d);
        assert forall|j: int| 0 <= j < d.len() implies #[trigger] rs[j] == d[j] by {}
        if count_available(rs) == 0 {
            assert forall|j: int| 0 <= j < rs.len() implies !(#[trigger] rs[j]).is_available by {
                if j < d.len() {
                    assert(rs[j] == d[j]);
                }
            }
        } else if count_available(d) > 0 {
            let w = choose|j: int| 0 <= j < d.len() && (#[trigger] d[j]).is_available;
            assert(rs[w] == d[w]);
        } else {
            assert(rs[rs.len() - 1].is_available);
        }
    }
}

/// The recommendation closing a report.
pub open spec fn recommendation(rs: Seq<GpuTestResult>) -> Seq<char> {
    let b = best_index(rs);
    if count_available(rs) > 0 && b >= 0 {
        "Recommended hardware acceleration: "@ + accel_label(rs[b].accel_type) + "\n"@ + match rs[b].performance_score {
            Some(sc) => "Performance score: "@ + decimal(sc as nat) + "\n"@,
            None => Seq::empty(),
        }
    } else if count_available(rs) > 0 {
        Seq::empty()
    } else {
        "No suitable hardware accelerators found. Using CPU-only mode.\n"@ + "Please check your hardware and drivers.\n"@
    }
}

/// The GPU capability report for the results `rs`, tested at `date`.
pub open spec fn gpu_report(rs: Seq<GpuTestResult>, date: Seq<char>) -> Seq<char> {
    "# GPU Capability Test Report\n\n"@ + "Test Date: "@ + date + "\n\n"@ + "Available GPUs: "@ + decimal(
        count_available(rs),
    ) + "/"@ + decimal(rs.len()) + "\n\n"@ + "## Detailed Results\n\n"@ + report_sections(rs)
        + "## Recommendations\n\n"@ + recommendation(rs)
}

fn push_bench_lines(out: &mut Vec<char>, bs: &Vec<(String, u64)>)
    ensures
        final(out)@ == old(out)@ + bench_lines(bs@),
{
    let ghost d0 = out@;
    let mut i: usize = 0;
    assert(bs@.take(0) =~= Seq::<(String, u64)>::empty());
    assert(d0 + bench_lines(bs@.take(0)) =~= d0);
    while i < bs.len()
        invariant
            0 <= i <= bs.len(),
            out@ == d0 + bench_lines(bs@.take(i as int)),
        decreases bs.len() - i,
    {
        assert(bs@.take(i + 1).drop_last() =~= bs@.take(i as int));
        assert(bs@.take(i + 1).last() == bs@[i as int]);
        push_str(out, "  - ");
        push_str(out, bs[i].0.as_str());
        push_str(out, ": ");
        push_decimal(out, bs[i].1);
        push_str(out, "ms\n");
        assert(out@ =~= d0 + bench_lines(bs@.take(i + 1)));
        i = i + 1;
    }
    assert(bs@.take(bs.len() as int) =~= bs@);
}

/// The report text of an optional line: `prefix`, the text and a line break.
fn push_optional_line(out: &mut Vec<char>, prefix: &str, text: &Option<String>)
    ensures
        final(out)@ == old(out)@ + optional_line(prefix@, *text),
{
    match text {
        Some(t) => {
            push_str(out, prefix);
            push_str(out, t.as_str());
            push_str(out, "\n");
            assert(out@ =~= old(out)@ + optional_line(prefix@, *text));
        },
        None => {
            assert(out@ =~= old(out)@ + optional_line(prefix@, *text));
        },
    }
}

fn push_section_head(out: &mut Vec<char>, r: &GpuTestResult)
    ensures
        final(out)@ == old(out)@ + section_head(*r),
{
    push_str(out, "### ");
    push_str(out, r.accel_type.label());
    push_str(out, "\n\n");
    push_str(out, "- Available: ");
    push_str(out, if r.is_available { "true" } else { "false" });
    push_str(out, "\n");
    proof {
        reveal_strlit("true");
        reveal_strlit("false");
    }
    assert(out@ =~= old(out)@ + section_head(*r));
}

fn push_score_line(out: &mut Vec<char>, r: &GpuTestResult)
    ensures
        final(out)@ == old(out)@ + score_line(*r),
{
    match r.performance_score {
        Some(sc) => {
            push_str(out, "- Performance Score: ");
            push_decimal(out, sc as u64);
            push_str(out, "\n");
            assert(out@ =~= old(out)@ + score_line(*r));
        },
        None => {
            assert(out@ =~= old(out)@ + score_line(*r));
        },
    }
}

fn push_bench_block(out: &mut Vec<char>, r: &GpuTestResult)
    ensures
        final(out)@ == old(out)@ + bench_block(*r),
{
    if r.benchmark_results.len() > 0 {
        push_str(out, "- Benchmark Results:\n");
        push_bench_lines(out, &r.benchmark_results);
        assert(out@ =~= old(out)@ + bench_block(*r));
    } else {
        assert(out@ =~= old(out)@ + bench_block(*r));
    }
}

fn push_result_section(out: &mut Vec<char>, r: &GpuTestResult)
    ensures
        final(out)@ == old(out)@ + result_section(*r),
{
    let ghost start = out@;
    push_section_head(out, r);
    push_optional_line(out, "- GPU Name: ", &r.gpu_name);
    assert(out@ =~= start + (section_head(*r) + optional_line("- GPU Name: "@, r.gpu_name)));
    push_score_line(out, r);
    assert(out@ =~= start + (section_head(*r) + optional_line("- GPU Name: "@, r.gpu_name) + score_line(*r)));
    push_bench_block(out, r);
    assert(out@ =~= start + (section_head(*r) + optional_line("- GPU Name: "@, r.gpu_name) + score_line(*r)
        + bench_block(*r)));
    push_optional_line(out, "- Error: ", &r.error_message);
    push_str(out, "\n");
    assert(out@ =~= start + result_section(*r));
}

/// The GPU capability report for the test results `results`, tested at `date`:
/// a header with the date and the number of working methods, a section per
/// result, and a recommendation of the working method with the highest score.
pub fn generate_gpu_report(results: &Vec<GpuTestResult>, date: &str) -> (report: String)
    ensures
        report@ == gpu_report(results@, date@),
{
    let rs = results;
    let mut out: Vec<char> = Vec::new();
    push_str(&mut out, "# GPU Capability Test Report\n\n");
    push_str(&mut out, "Test Date: ");
    push_str(&mut out, date);
    push_str(&mut out, "\n\n");
    let mut available: usize = 0;
    let mut best: Option<usize> = None;
    let mut i: usize = 0;
    assert(rs@.take(0) =~= Seq::<GpuTestResult>::empty());
    while i < rs.len()
        invariant
            0 <= i <= rs.len(),
            available == count_available(rs@.take(i as int)),
            available <= i,
            match best {
                Some(b) => best_index(rs@.take(i as int)) == b && b < i,
                None => best_index(rs@.take(i as int)) == -1,
            },
        decreases rs.len() - i,
    {
        let ghost t = rs@.take(i + 1);
        assert(t.drop_last() =~= rs@.take(i as int));
        assert(t.last() == rs@[i as int]);
        if rs[i].is_available {
            available = available + 1;
            let better = match best {
                None => true,
                Some(b) => {
                    assert(t[b as int] == rs@[b as int]);
                    let kb: u32 = match rs[b].performance_score {
                        Some(x) => x,
                        None => 0,
                    };
                    let ki: u32 = match rs[i].performance_score {
                        Some(x) => x,
                        None => 0,
                    };
                    kb <= ki
                },
            };
            if better {
                best = Some(i);
            }
        }
        i = i + 1;
    }
    assert(rs@.take(rs.len() as int) =~= rs@);
    push_str(&mut out, "Available GPUs: ");
    push_decimal(&mut out, available as u64);
    push_str(&mut out, "/");
    push_decimal(&mut out, rs.len() as u64);
    push_str(&mut out, "\n\n");
    push_str(&mut out, "## Detailed Results\n\n");
    let ghost head = out@;
    let mut k: usize = 0;
    while k < rs.len()
        invariant
            0 <= k <= rs.len(),
            out@ == head + report_sections(rs@.take(k as int)),
        decreases rs.len() - k,
    {
        assert(rs@.take(k + 1).drop_last() =~= rs@.take(k as int));
        assert(rs@.take(k + 1).last() == rs@[k as int]);
        push_result_section(&mut out, &rs[k]);
        k = k + 1;
    }
    push_str(&mut out, "## Recommendations\n\n");
    proof {
        lemma_best_index(rs@);
        lemma_count_available(rs@);
    }
    if available > 0 {
        match best {
            Some(b) => {
                push_str(&mut out, "Recommended hardware acceleration: ");
                push_str(&mut out, rs[b].accel_type.label());
                push_str(&mut out, "\n");
                match rs[b].performance_score {
                    Some(sc) => {
                        push_str(&mut out, "Performance score: ");
                        push_decimal(&mut out, sc as u64);
                        push_str(&mut out, "\n");
                    },
                    None => {},
                }
            },
            None => {},
        }
    } else {
        push_str(&mut out, "No suitable hardware accelerators found. Using CPU-only mode.\n");
        push_str(&mut out, "Please check your hardware and drivers.\n");
    }
    assert(out@ =~= gpu_report(rs@, date@));
    string_from_chars(&out)
}

} // verus!
