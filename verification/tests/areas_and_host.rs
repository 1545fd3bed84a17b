use lnmai::areas::{area_label, label_to_index};
use lnmai::host::{count_pressed, parse_args, pressed_sensor_labels, sensor_active, InputState, Mode};
use lnmai::protocol::{InputKind, JudgeEventKind, JudgeGrade, BUTTON_ZONE_COUNT, SENSOR_AREA_COUNT};

const NAMES: [&str; 33] = [
    "A1", "A2", "A3", "A4", "A5", "A6", "A7", "A8", "B1", "B2", "B3", "B4", "B5", "B6", "B7", "B8",
    "C", "D1", "D2", "D3", "D4", "D5", "D6", "D7", "D8", "E1", "E2", "E3", "E4", "E5", "E6", "E7",
    "E8",
];

#[test]
fn area_labels_follow_the_table() {
    for (i, name) in NAMES.iter().enumerate() {
        assert_eq!(area_label(i), *name);
    }
}

#[test]
fn every_label_names_its_own_area() {
    for i in 0..SENSOR_AREA_COUNT {
        assert_eq!(label_to_index(&area_label(i)), Some(i));
    }
}

#[test]
fn centre_halves_name_the_centre() {
    assert_eq!(label_to_index("C"), Some(16));
    assert_eq!(label_to_index("C1"), Some(16));
    assert_eq!(label_to_index("C2"), Some(16));
    assert_eq!(label_to_index("C3"), None);
    assert_eq!(label_to_index("A9"), None);
    assert_eq!(label_to_index(""), None);
    assert_eq!(label_to_index("a1"), None);
}

#[test]
fn parse_args_chooses_mode() {
    let prog = "lnmai".to_string();
    assert!(matches!(parse_args(&vec![prog.clone()]), Mode::Usage));
    assert!(matches!(parse_args(&vec![prog.clone(), "test".to_string()]), Mode::SensorTest));
    match parse_args(&vec![prog.clone(), "charts/x.zip".to_string(), "more".to_string()]) {
        Mode::Play(p) => assert_eq!(p, "charts/x.zip"),
        _ => panic!("expected play"),
    }
    assert!(matches!(parse_args(&vec![]), Mode::Usage));
    match parse_args(&vec![prog, "Test".to_string()]) {
        Mode::Play(p) => assert_eq!(p, "Test"),
        _ => panic!("expected play"),
    }
}

#[test]
fn default_input_holds_nothing() {
    let s = InputState::default();
    assert_eq!(s.buttons.len(), BUTTON_ZONE_COUNT);
    assert_eq!(s.sensors.len(), SENSOR_AREA_COUNT);
    assert_eq!(count_pressed(&s.buttons), 0);
    assert_eq!(count_pressed(&s.sensors), 0);
}

#[test]
fn count_pressed_counts_held_entries() {
    assert_eq!(count_pressed(&[true, false, true, true]), 3);
    assert_eq!(count_pressed(&[]), 0);
}

#[test]
fn sensor_active_reads_inside_the_list_only() {
    let pressed = [false, true];
    assert!(sensor_active(&pressed, 1));
    assert!(!sensor_active(&pressed, 0));
    assert!(!sensor_active(&pressed, 2));
    assert!(!sensor_active(&pressed, usize::MAX));
}

#[test]
fn summary_shows_dash_when_nothing_is_held() {
    let s = InputState::default();
    assert_eq!(pressed_sensor_labels(&s.sensors), "-");
    assert_eq!(pressed_sensor_labels(&[]), "-");
}

#[test]
fn summary_lists_held_areas_in_order() {
    let mut s = InputState::default();
    s.sensors[0] = true;
    s.sensors[16] = true;
    s.sensors[32] = true;
    assert_eq!(pressed_sensor_labels(&s.sensors), "A1, C, E8");
    assert_eq!(count_pressed(&s.sensors), 3);
    s.sensors[16] = false;
    s.sensors[32] = false;
    assert_eq!(pressed_sensor_labels(&s.sensors), "A1");
}

#[test]
fn summary_ignores_entries_past_the_areas() {
    let mut v = vec![false; 40];
    v[35] = true;
    assert_eq!(pressed_sensor_labels(&v), "-");
    v[9] = true;
    assert_eq!(pressed_sensor_labels(&v), "B2");
}

#[test]
fn boundary_enums_compare_by_variant() {
    assert_eq!(InputKind::Button, InputKind::Button);
    assert_ne!(InputKind::Button, InputKind::Sensor);
    assert_ne!(JudgeEventKind::Tap, JudgeEventKind::Break);
    assert_eq!(JudgeGrade::Perfect, JudgeGrade::Perfect);
    assert_ne!(JudgeGrade::LateGood, JudgeGrade::FastGood);
}
