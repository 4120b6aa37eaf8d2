use loop_studio::track::Marker;
use loop_studio::ui::markers::{
    add_marker, clamp_markers, delete_marker, next_marker, nth_marker, previous_marker,
};

fn marker(frame: u64, label: &str) -> Marker {
    Marker { frame, label: label.to_string() }
}

fn frames(markers: &[Marker]) -> Vec<u64> {
    markers.iter().map(|m| m.frame).collect()
}

#[test]
fn markers_are_added_in_order_and_once() {
    let mut m = Vec::new();
    assert!(add_marker(&mut m, 50));
    assert!(add_marker(&mut m, 10));
    assert!(add_marker(&mut m, 30));
    assert!(!add_marker(&mut m, 30));
    assert_eq!(frames(&m), vec![10, 30, 50]);
    assert!(m.iter().all(|x| x.label.is_empty()));
}

#[test]
fn clamping_drops_sorts_and_keeps_the_first_label() {
    let m = vec![
        marker(90, "late"),
        marker(20, "first"),
        marker(100, "at the end"),
        marker(20, "second"),
        marker(5, "early"),
        marker(500, "beyond"),
    ];
    let r = clamp_markers(m, 100);
    assert_eq!(r, vec![marker(5, "early"), marker(20, "first"), marker(90, "late")]);
}

#[test]
fn clamping_clamped_markers_changes_nothing() {
    let m = vec![marker(1, "a"), marker(2, "b"), marker(9, "c")];
    assert_eq!(clamp_markers(m.clone(), 10), m);
    assert_eq!(clamp_markers(m, 0), Vec::new());
}

#[test]
fn deleting_keeps_the_others() {
    let mut m = vec![marker(1, "a"), marker(2, "b"), marker(3, "c")];
    delete_marker(&mut m, 1);
    assert_eq!(frames(&m), vec![1, 3]);
}

#[test]
fn stepping_forward_is_strict() {
    let m = vec![marker(10, ""), marker(20, ""), marker(30, "")];
    assert_eq!(next_marker(&m, 0), Some(10));
    assert_eq!(next_marker(&m, 10), Some(20));
    assert_eq!(next_marker(&m, 30), None);
    assert_eq!(next_marker(&m, u64::MAX), None);
}

#[test]
fn stepping_back_forgives_half_a_second() {
    let m = vec![marker(1000, ""), marker(5000, "")];
    // Half a second at 1000 Hz is 500 frames.
    assert_eq!(previous_marker(&m, 5000, 1000), Some(1000));
    assert_eq!(previous_marker(&m, 5500, 1000), Some(1000));
    assert_eq!(previous_marker(&m, 5501, 1000), Some(5000));
    assert_eq!(previous_marker(&m, 1200, 1000), None);
    assert_eq!(previous_marker(&m, 2000, 1000), Some(1000));
    assert_eq!(previous_marker(&m, 500, 1000), None);
    assert_eq!(previous_marker(&m, u64::MAX, 1000), Some(5000));
}

#[test]
fn markers_are_counted_from_one() {
    let m = vec![marker(10, ""), marker(20, "")];
    assert_eq!(nth_marker(&m, 0), None);
    assert_eq!(nth_marker(&m, 1), Some(10));
    assert_eq!(nth_marker(&m, 2), Some(20));
    assert_eq!(nth_marker(&m, 3), None);
}
