use std::time::Duration;
use wgpui::perf::consts::{
    IMPORTANCE_LINE_NAME, ITER_COUNT_LINE_NAME, ITER_ENV_VAR, MDATA_LINE_PREF, MDATA_VER,
    SUF_MDATA, SUF_NORMAL, VERSION_LINE_NAME, WEIGHT_DEFAULT, WEIGHT_LINE_NAME,
};
use wgpui::perf::{FrameMetrics, FrameMetricsCollector, Importance, PhaseTimer, PrimitiveCounts};
use wgpui::perf_macro::{
    arg_name, perf_test_names, MetaValue, PerfArgError, PerfArgName, PerfArgs,
};
use wgpui::perf_overlay::{perf_overlay, upload_kibibytes, PerfOverlay};

#[test]
fn importance_defaults_to_average_and_displays_its_name() {
    assert_eq!(Importance::default(), Importance::Average);
    assert_eq!(Importance::Critical.to_string(), "Critical");
    assert_eq!(Importance::Important.to_string(), "Important");
    assert_eq!(Importance::Average.to_string(), "Average");
    assert_eq!(Importance::Iffy.name(), "Iffy");
    assert_eq!(Importance::Fluff.name(), "Fluff");
}

#[test]
fn consts_have_their_values() {
    assert_eq!(SUF_NORMAL, ".perf");
    assert_eq!(SUF_MDATA, ".perfm");
    assert_eq!(ITER_ENV_VAR, "PERF_ITERATIONS");
    assert_eq!(MDATA_LINE_PREF, "PERF_MDATA");
    assert_eq!(ITER_COUNT_LINE_NAME, "iterations");
    assert_eq!(WEIGHT_LINE_NAME, "weight");
    assert_eq!(IMPORTANCE_LINE_NAME, "importance");
    assert_eq!(VERSION_LINE_NAME, "version");
    assert_eq!(MDATA_VER, 1);
    assert_eq!(WEIGHT_DEFAULT, 1);
}

#[test]
fn fresh_collector_reports_zero_durations() {
    let metrics = FrameMetricsCollector::new(42).finish();
    assert_eq!(metrics.frame_number, 42);
    assert_eq!(metrics.total_draw_duration, Duration::ZERO);
    assert_eq!(metrics.paint_duration, Duration::ZERO);
    assert_eq!(metrics.gpu_upload_bytes, 0);
    assert_eq!(metrics.primitive_count, PrimitiveCounts::default());
    assert_eq!(FrameMetrics::default().present_duration, Duration::ZERO);
}

#[test]
fn recorded_phases_land_in_their_fields() {
    let mut collector = FrameMetricsCollector::new(7);
    collector.record_phase(0, Duration::from_millis(1));
    collector.record_phase(1, Duration::from_millis(2));
    collector.record_phase(2, Duration::from_millis(3));
    collector.record_phase(3, Duration::from_millis(4));
    collector.record_phase(4, Duration::from_millis(5));
    collector.record_phase(5, Duration::from_millis(6));
    collector.record_phase(2, Duration::from_millis(30));
    collector.record_phase(6, Duration::from_millis(99));
    let metrics = collector.finish();
    assert_eq!(metrics.invalidate_entities_duration, Duration::from_millis(1));
    assert_eq!(metrics.prepaint_duration, Duration::from_millis(2));
    assert_eq!(metrics.paint_duration, Duration::from_millis(30));
    assert_eq!(metrics.scene_finish_duration, Duration::from_millis(4));
    assert_eq!(metrics.present_duration, Duration::from_millis(5));
    assert_eq!(metrics.total_draw_duration, Duration::from_millis(6));
}

#[test]
fn upload_and_draw_counters_saturate() {
    let mut collector = FrameMetricsCollector::new(0);
    collector.record_gpu_upload(100);
    collector.record_gpu_upload(28);
    collector.record_draw_call();
    collector.record_draw_call();
    collector.record_draw_call();
    collector.set_view_counts(2, 9);
    let counts = PrimitiveCounts { quads: 4, surfaces: 1, ..PrimitiveCounts::default() };
    collector.set_primitive_counts(counts);
    let metrics = collector.finish();
    assert_eq!(metrics.gpu_upload_bytes, 128);
    assert_eq!(metrics.gpu_upload_count, 2);
    assert_eq!(metrics.draw_call_count, 3);
    assert_eq!(metrics.dirty_view_count, 2);
    assert_eq!(metrics.total_view_count, 9);
    assert_eq!(metrics.primitive_count, counts);

    let mut big = FrameMetricsCollector::new(0);
    big.record_gpu_upload(usize::MAX - 1);
    big.record_gpu_upload(5);
    assert_eq!(big.finish().gpu_upload_bytes, usize::MAX);
}

#[test]
fn phase_timer_measures_nonnegative_time() {
    let timer = PhaseTimer::start();
    let first = timer.elapsed();
    let second = timer.elapsed();
    assert!(second >= first);
}

#[test]
fn overlay_reports_kibibytes() {
    assert_eq!(perf_overlay(), PerfOverlay);
    let metrics = FrameMetrics { gpu_upload_bytes: 5000, ..FrameMetrics::default() };
    assert_eq!(upload_kibibytes(&metrics), 4);
}

#[test]
fn perf_arguments_are_recognised() {
    assert_eq!(arg_name("iterations"), Some(PerfArgName::Iterations));
    assert_eq!(arg_name("weight"), Some(PerfArgName::Weight));
    assert_eq!(arg_name("critical"), Some(PerfArgName::Level(Importance::Critical)));
    assert_eq!(arg_name("fluff"), Some(PerfArgName::Level(Importance::Fluff)));
    assert_eq!(arg_name("Critical"), None);
    assert_eq!(arg_name("weights"), None);
}

#[test]
fn parse_into_sets_arguments() {
    let mut args: PerfArgs<u32> = PerfArgs::new();
    assert!(args.parse_into("iterations", || Ok::<u32, String>(10)).is_ok());
    assert!(args.parse_into("iffy", || Ok::<u32, String>(0)).is_ok());
    assert_eq!(args.iterations, Some(10));
    assert_eq!(args.weight, None);
    assert_eq!(args.importance, Importance::Iffy);
    match args.parse_into("bogus", || Ok::<u32, String>(1)) {
        Err(PerfArgError::UnexpectedIdentifier) => {}
        other => panic!("unexpected {:?}", other),
    }
    assert_eq!(PerfArgError::<String>::unexpected_message(), "unexpected identifier");
    match args.parse_into("weight", || Err::<u32, String>("bad".to_string())) {
        Err(PerfArgError::Value(message)) => assert_eq!(message, "bad"),
        other => panic!("unexpected {:?}", other),
    }
    assert_eq!(args.weight, None);
}

#[test]
fn perf_test_names_carry_the_suffixes() {
    let names = perf_test_names("bench_layout");
    assert_eq!(names.main, "bench_layout.perf");
    assert_eq!(names.meta, "bench_layout.perfm");
}

#[test]
fn metadata_lines_default_the_weight() {
    let args: PerfArgs<u32> = PerfArgs::new();
    let lines = args.metadata_lines();
    let names: Vec<&str> = lines.iter().map(|l| l.name).collect();
    assert_eq!(names, vec!["weight", "importance", "version"]);
    assert!(matches!(lines[0].value, MetaValue::Number(1)));
    assert!(matches!(lines[1].value, MetaValue::Text("Average")));
    assert!(matches!(lines[2].value, MetaValue::Number(1)));

    let mut args: PerfArgs<u32> = PerfArgs::new();
    args.parse_into("iterations", || Ok::<u32, ()>(3)).unwrap();
    args.parse_into("weight", || Ok::<u32, ()>(8)).unwrap();
    args.parse_into("critical", || Ok::<u32, ()>(0)).unwrap();
    let lines = args.metadata_lines();
    let names: Vec<&str> = lines.iter().map(|l| l.name).collect();
    assert_eq!(names, vec!["iterations", "weight", "importance", "version"]);
    assert!(matches!(lines[0].value, MetaValue::Expr(3)));
    assert!(matches!(lines[1].value, MetaValue::Expr(8)));
    assert!(matches!(lines[2].value, MetaValue::Text("Critical")));
}
