use nih_faust_jit::testbench::benchmarking::{
    load, truncated, BenchmarkMetrics, Load, ProcessTimer, CRITICAL_LOAD, HIGH_LOAD,
};

#[test]
fn metrics_start_empty() {
    let m = BenchmarkMetrics::new();
    assert_eq!((m.buffer_size, m.sample_rate), (512, 44100));
    assert_eq!((m.last_process_ns, m.max_process_ns, m.xrun_count), (0, 0, 0));
    assert_eq!(m.average_process_ns(), 0);
    assert_eq!(BenchmarkMetrics::default().sample_rate, 44100);
}

#[test]
fn maximum_and_average_follow_the_durations() {
    let mut m = BenchmarkMetrics::new();
    for ns in [100, 400, 250] {
        m.record_process_time(ns);
    }
    assert_eq!(m.last_process_ns, 250);
    assert_eq!(m.max_process_ns, 400);
    assert_eq!(m.process_sum_ns, 750);
    assert_eq!(m.process_count, 3);
    assert_eq!(m.average_process_ns(), 250);
    m.record_process_time(1);
    assert_eq!(m.average_process_ns(), 187);
    assert_eq!(m.max_process_ns, 400);
}

#[test]
fn sum_wraps_around() {
    let mut m = BenchmarkMetrics::new();
    m.record_process_time(u64::MAX);
    m.record_process_time(3);
    assert_eq!(m.process_sum_ns, 2);
    assert_eq!(m.process_count, 2);
    assert_eq!(m.max_process_ns, u64::MAX);
}

#[test]
fn reset_keeps_buffer_size_and_rate() {
    let mut m = BenchmarkMetrics::new();
    m.buffer_size = 64;
    m.sample_rate = 96000;
    m.record_process_time(5);
    m.record_xrun();
    m.record_xrun();
    assert_eq!(m.xrun_count, 2);
    m.reset();
    assert_eq!((m.buffer_size, m.sample_rate), (64, 96000));
    assert_eq!((m.last_process_ns, m.max_process_ns, m.process_count, m.xrun_count), (0, 0, 0, 0));
}

#[test]
fn xruns_wrap_around() {
    let mut m = BenchmarkMetrics::new();
    m.xrun_count = u32::MAX;
    m.record_xrun();
    assert_eq!(m.xrun_count, 0);
}

#[test]
fn load_needs_buffer_size_and_rate() {
    let mut m = BenchmarkMetrics::new();
    assert!(m.has_load());
    m.buffer_size = 0;
    assert!(!m.has_load());
    m.buffer_size = 1;
    m.sample_rate = 0;
    assert!(!m.has_load());
}

#[test]
fn load_has_three_levels() {
    assert_eq!(HIGH_LOAD, 50.0f32.to_bits());
    assert_eq!(CRITICAL_LOAD, 80.0f32.to_bits());
    assert_eq!(load(0.0f32.to_bits()), Load::Fine);
    assert_eq!(load(49.9f32.to_bits()), Load::Fine);
    assert_eq!(load(50.0f32.to_bits()), Load::High);
    assert_eq!(load(79.9f32.to_bits()), Load::High);
    assert_eq!(load(80.0f32.to_bits()), Load::Critical);
    assert_eq!(load(f32::NAN.to_bits()), Load::Critical);
}

#[test]
fn timer_records_one_call() {
    let mut m = BenchmarkMetrics::new();
    let timer = ProcessTimer::new(&mut m);
    let begin = std::time::Instant::now();
    while begin.elapsed().as_millis() < 2 {}
    timer.finish();
    assert_eq!(m.process_count, 1);
    assert!(m.last_process_ns >= 2_000_000);
    assert_eq!(m.max_process_ns, m.last_process_ns);
    assert_eq!(m.process_sum_ns, m.last_process_ns);
}

#[test]
fn nanoseconds_keep_their_lower_half() {
    assert_eq!(truncated(5), 5);
    assert_eq!(truncated(u64::MAX as u128), u64::MAX);
    assert_eq!(truncated((1u128 << 64) + 7), 7);
}
