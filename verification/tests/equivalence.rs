use asana_gtasks::asana::{CivilDate, Instant};
use asana_gtasks::google::normalize_due;
use asana_gtasks::sync::{asana_google_notes_same, tasks_equivalent};
use asana_gtasks::{asana, google};

fn foreign(name: &str, notes: &str) -> asana::Task {
    asana::Task {
        gid: "F1".to_string(),
        name: name.to_string(),
        notes: notes.to_string(),
        due_on: CivilDate::new(2024, 1, 1),
        due_at: None,
        completed_at: None,
    }
}

fn mirror(title: Option<&str>, due: Option<&str>, notes: Option<&str>) -> google::Task {
    google::Task {
        id: "G1".to_string(),
        title: title.map(|s| s.to_string()),
        notes: notes.map(|s| s.to_string()),
        due: due.map(|s| s.to_string()),
        completed: None,
    }
}

#[test]
fn mirror_body_up_to_footer_matches_foreign_body() {
    let f = foreign("Buy milk", "line1\nline2");
    let m = mirror(Some("Buy milk"), Some("2024-01-01T00:00:00Z"), Some("line1\nline2\n---\nabc"));
    assert!(asana_google_notes_same(&f, &m));
    assert!(tasks_equivalent(&f, &m));
}

#[test]
fn shorter_foreign_body_that_is_a_prefix_still_matches() {
    let f = foreign("Buy milk", "line1");
    let m = mirror(Some("Buy milk"), Some("2024-01-01T00:00:00Z"), Some("line1\nline2\n---\nabc"));
    assert!(asana_google_notes_same(&f, &m));
    assert!(tasks_equivalent(&f, &m));
}

#[test]
fn shorter_mirror_body_that_is_a_prefix_still_matches() {
    let f = foreign("Buy milk", "line1\nline2\nline3");
    let m = mirror(Some("Buy milk"), Some("2024-01-01T00:00:00Z"), Some("line1\nline2\n---\nabc"));
    assert!(asana_google_notes_same(&f, &m));
}

#[test]
fn empty_body_on_one_side_matches_any_body() {
    let f = foreign("Buy milk", "");
    let m = mirror(Some("Buy milk"), Some("2024-01-01T00:00:00Z"), Some("anything\n---\nF1"));
    assert!(asana_google_notes_same(&f, &m));
    let f = foreign("Buy milk", "anything");
    let m = mirror(Some("Buy milk"), Some("2024-01-01T00:00:00Z"), Some("\n---\nF1"));
    assert!(!asana_google_notes_same(&f, &m));
    let m = mirror(Some("Buy milk"), Some("2024-01-01T00:00:00Z"), Some("---\nF1"));
    assert!(asana_google_notes_same(&f, &m));
}

#[test]
fn a_line_that_differs_is_a_mismatch() {
    let f = foreign("Buy milk", "line1\nchanged");
    let m = mirror(Some("Buy milk"), Some("2024-01-01T00:00:00Z"), Some("line1\nline2\n---\nabc"));
    assert!(!asana_google_notes_same(&f, &m));
    assert!(!tasks_equivalent(&f, &m));
}

#[test]
fn line_endings_do_not_count() {
    let f = foreign("Buy milk", "line1\r\nline2\r\n");
    let m = mirror(Some("Buy milk"), Some("2024-01-01T00:00:00Z"), Some("line1\nline2\n---\nabc"));
    assert!(asana_google_notes_same(&f, &m));
}

#[test]
fn mirror_without_notes_is_a_mismatch() {
    let f = foreign("Buy milk", "");
    let m = mirror(Some("Buy milk"), Some("2024-01-01T00:00:00Z"), None);
    assert!(!asana_google_notes_same(&f, &m));
    assert!(!tasks_equivalent(&f, &m));
}

#[test]
fn title_must_be_the_same() {
    let f = foreign("Buy milk", "x");
    let m = mirror(Some("Buy Milk"), Some("2024-01-01T00:00:00Z"), Some("x\n---\nF1"));
    assert!(!tasks_equivalent(&f, &m));
    let m = mirror(None, Some("2024-01-01T00:00:00Z"), Some("x\n---\nF1"));
    assert!(!tasks_equivalent(&f, &m));
}

#[test]
fn due_must_be_the_same() {
    let f = foreign("Buy milk", "x");
    let m = mirror(Some("Buy milk"), Some("2024-01-02T00:00:00Z"), Some("x\n---\nF1"));
    assert!(!tasks_equivalent(&f, &m));
    let m = mirror(Some("Buy milk"), None, Some("x\n---\nF1"));
    assert!(!tasks_equivalent(&f, &m));
    let m = mirror(Some("Buy milk"), Some("2024-01-01"), Some("x\n---\nF1"));
    assert!(!tasks_equivalent(&f, &m));
}

#[test]
fn due_with_thousandths_is_the_same() {
    let f = foreign("Buy milk", "x");
    let m = mirror(Some("Buy milk"), Some("2024-01-01T00:00:00.000Z"), Some("x\n---\nF1"));
    assert!(tasks_equivalent(&f, &m));
    let m = mirror(Some("Buy milk"), Some("2024-01-01T00:00:00.001Z"), Some("x\n---\nF1"));
    assert!(!tasks_equivalent(&f, &m));
}

#[test]
fn due_time_is_compared_by_its_date_in_the_reference_zone() {
    let mut f = foreign("Buy milk", "x");
    f.due_on = None;
    f.due_at = Instant::new(1_710_558_000, 0);
    let m = mirror(Some("Buy milk"), Some("2024-03-15T00:00:00.000Z"), Some("x\n---\nF1"));
    assert!(tasks_equivalent(&f, &m));
    let m = mirror(Some("Buy milk"), Some("2024-03-16T00:00:00.000Z"), Some("x\n---\nF1"));
    assert!(!tasks_equivalent(&f, &m));
}

#[test]
fn task_without_due_is_equivalent_to_nothing() {
    let mut f = foreign("Buy milk", "x");
    f.due_on = None;
    let m = mirror(Some("Buy milk"), Some("2024-01-01T00:00:00Z"), Some("x\n---\nF1"));
    assert!(!tasks_equivalent(&f, &m));
}

#[test]
fn normalize_due_replaces_only_the_zero_thousandths() {
    assert_eq!(normalize_due("2024-01-01T00:00:00.000Z"), "2024-01-01T00:00:00Z");
    assert_eq!(normalize_due("2024-01-01T00:00:00Z"), "2024-01-01T00:00:00Z");
    assert_eq!(normalize_due("2024-01-01T00:00:00.500Z"), "2024-01-01T00:00:00.500Z");
    assert_eq!(normalize_due(".000Z"), "Z");
    assert_eq!(normalize_due("000Z"), "000Z");
    assert_eq!(normalize_due(""), "");
    assert_eq!(normalize_due("a.000Z.000Z"), "a.000ZZ");
}
