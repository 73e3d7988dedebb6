use ecore_launcher::cli::adjust::{
    adjust_i8, adjust_u64, adjust_u8, clamp_index, cycle_index, cycle_io_class, format_cpu_range,
    format_cpus, move_index, normalize_io_priority, truncate,
};
use ecore_launcher::cli::select::{parse_io_class, plural};
use ecore_launcher::IoPriorityClass;

#[test]
fn selection_helpers_stay_in_bounds() {
    assert_eq!(move_index(0, 3, -1), 0);
    assert_eq!(move_index(0, 3, 1), 1);
    assert_eq!(move_index(2, 3, 1), 2);
    assert_eq!(clamp_index(9, 3), 2);
    assert_eq!(clamp_index(9, 0), 0);
}

#[test]
fn configure_adjustments_respect_registry_bounds() {
    assert_eq!(adjust_u64(0, -1, 1, 0, 3_600), 0);
    assert_eq!(adjust_u64(3_600, 1, 1, 0, 3_600), 3_600);
    assert_eq!(adjust_i8(-20, -1, 1, -20, 19), -20);
    assert_eq!(adjust_i8(19, 1, 1, -20, 19), 19);
}

#[test]
fn io_class_cycle_and_priority_normalization_are_deterministic() {
    assert_eq!(
        cycle_io_class(IoPriorityClass::Unset, 1),
        IoPriorityClass::BestEffort
    );
    let mut priority = Some(7);
    normalize_io_priority(&mut priority, IoPriorityClass::Idle);
    assert_eq!(priority, None);
    normalize_io_priority(&mut priority, IoPriorityClass::Realtime);
    assert_eq!(priority, Some(4));
}

#[test]
fn cpu_lists_render_compactly() {
    assert_eq!(format_cpus(&vec![]), "none");
    assert_eq!(format_cpus(&vec![1, 2, 3, 5, 7, 8]), "1-3,5,7-8");
}

#[test]
fn pluralizes_application_count() {
    assert_eq!(plural(1), "");
    assert_eq!(plural(0), "s");
    assert_eq!(plural(2), "s");
}

#[test]
fn indices_cycle_in_both_directions() {
    assert_eq!(cycle_index(0, 5, -1), 4);
    assert_eq!(cycle_index(4, 5, 1), 0);
    assert_eq!(cycle_index(0, 0, 1), 0);
    assert_eq!(move_index(5, 0, 1), 0);
}

#[test]
fn small_values_are_adjusted_by_their_step() {
    assert_eq!(adjust_u8(4, 1, 1, 0, 7), 5);
    assert_eq!(adjust_u8(0, -1, 1, 0, 7), 0);
    assert_eq!(adjust_u64(100, -1, 10, 0, 3_600), 90);
    assert_eq!(adjust_i8(5, -1, 10, -20, 19), -5);
}

#[test]
fn io_classes_parse_by_name() {
    assert_eq!(parse_io_class("none"), Ok(IoPriorityClass::Unset));
    assert_eq!(parse_io_class("realtime"), Ok(IoPriorityClass::Realtime));
    assert_eq!(parse_io_class("best-effort"), Ok(IoPriorityClass::BestEffort));
    assert_eq!(parse_io_class("idle"), Ok(IoPriorityClass::Idle));
    assert!(parse_io_class("fast").is_err());
}

#[test]
fn long_values_end_in_an_ellipsis() {
    assert_eq!(truncate("short", 10), "short");
    assert_eq!(truncate("exactly", 7), "exactly");
    assert_eq!(truncate("a longer value", 5), "a lo\u{2026}");
    assert_eq!(format_cpu_range(3, 3), "3");
    assert_eq!(format_cpu_range(3, 5), "3-5");
}
