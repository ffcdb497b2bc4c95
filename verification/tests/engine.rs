//! Scenario tests of the attendance engine: week initialization,
//! marking, absence aggregation, and roster reconciliation.

use attendance::date::Date;
use attendance::manager::AttendanceManager;
use attendance::models::{AttendanceError, Status, Student};
use attendance::weeks::SetWeekOutcome;

fn student(id: &str, email: &str) -> Student {
    Student {
        id: id.to_string(),
        email: email.to_string(),
        first_name: id.to_uppercase(),
        last_name: "Tester".to_string(),
        major: "CS".to_string(),
        class: 2026,
        graduation_semester: "S26".to_string(),
    }
}

fn abc_manager() -> AttendanceManager {
    let mut m = AttendanceManager::new();
    m.insert_students(&vec![
        student("anna", "anna@andrew.cmu.edu"),
        student("ben", "ben@andrew.cmu.edu"),
        student("cora", "cora@andrew.cmu.edu"),
    ])
    .unwrap();
    m
}

fn ymd(y: i32, mo: u32, d: u32) -> Date {
    Date::from_ymd(y, mo, d).unwrap()
}

#[test]
fn initialize_creates_one_row_per_valid_week() {
    let mut m = AttendanceManager::new();
    let start = ymd(2025, 1, 15);
    m.initialize_weeks(start, &vec![true, true, false, true]);
    assert_eq!(m.weeks.len(), 3);
    assert_eq!(m.weeks[0].id, 1);
    assert_eq!(m.weeks[1].id, 2);
    assert_eq!(m.weeks[2].id, 3);
    // the calendar advances seven days per mask position, valid or not
    assert_eq!(m.weeks[0].date, ymd(2025, 1, 22));
    assert_eq!(m.weeks[1].date, ymd(2025, 1, 29));
    assert_eq!(m.weeks[2].date, ymd(2025, 2, 12));
    assert_eq!(m.get_current_week(), 1);
}

#[test]
fn initialize_with_no_valid_weeks_stays_uninitialized() {
    let mut m = AttendanceManager::new();
    m.initialize_weeks(ymd(2025, 1, 15), &vec![false, false]);
    assert_eq!(m.weeks.len(), 0);
    assert_eq!(m.get_current_week(), 0);
}

#[test]
fn insert_duplicate_id_refuses_whole_batch() {
    let mut m = abc_manager();
    let before = m.num_students();
    let r = m.insert_students(&vec![student("dave", "d@x"), student("anna", "a@x")]);
    assert_eq!(r, Err(AttendanceError::DuplicateKey));
    assert_eq!(m.num_students(), before);
}

#[test]
fn roster_ids_keep_roster_order() {
    let m = abc_manager();
    assert_eq!(
        m.get_roster_ids(),
        vec!["anna".to_string(), "ben".to_string(), "cora".to_string()]
    );
}

#[test]
fn get_student_not_found() {
    let m = abc_manager();
    assert!(matches!(m.get_student("zoe"), Err(AttendanceError::NotFound)));
    assert_eq!(m.get_student("ben").unwrap().id, "ben");
}

#[test]
fn delete_student_cascades_records() {
    let mut m = abc_manager();
    m.initialize_weeks(ymd(2025, 1, 15), &vec![true, true]);
    m.mark(1, &vec!["anna".to_string(), "ben".to_string()], Status::Present).unwrap();
    let removed = m.delete_student("anna").unwrap();
    assert_eq!(removed.id, "anna");
    assert!(m.records.iter().all(|r| r.student != "anna"));
    assert!(matches!(m.delete_student("anna"), Err(AttendanceError::NotFound)));
}

#[test]
fn mark_skips_unknown_students() {
    let mut m = abc_manager();
    m.initialize_weeks(ymd(2025, 1, 15), &vec![true]);
    let skipped = m
        .mark(1, &vec!["anna".to_string(), "zoe".to_string()], Status::Present)
        .unwrap();
    assert_eq!(skipped, vec!["zoe".to_string()]);
    let recs = m.get_week_attendance(1);
    assert_eq!(recs.len(), 1);
    assert_eq!(recs[0].student, "anna");
    assert_eq!(recs[0].status, Status::Present);
}

#[test]
fn mark_unknown_week_is_refused() {
    let mut m = abc_manager();
    m.initialize_weeks(ymd(2025, 1, 15), &vec![true]);
    let r = m.mark(9, &vec!["anna".to_string()], Status::Present);
    assert_eq!(r, Err(AttendanceError::NonexistentWeek(9)));
    assert!(m.records.is_empty());
}

#[test]
fn mark_is_idempotent() {
    let mut m = abc_manager();
    m.initialize_weeks(ymd(2025, 1, 15), &vec![true, true]);
    let ids = vec!["anna".to_string(), "ben".to_string()];
    m.mark(1, &ids, Status::Excused).unwrap();
    let once = m.get_week_attendance(1);
    m.mark(1, &ids, Status::Excused).unwrap();
    let twice = m.get_week_attendance(1);
    assert_eq!(once, twice);
}

#[test]
fn remark_overwrites_instead_of_duplicating() {
    let mut m = abc_manager();
    m.initialize_weeks(ymd(2025, 1, 15), &vec![true]);
    m.mark(1, &vec!["anna".to_string()], Status::Absent).unwrap();
    m.mark(1, &vec!["anna".to_string()], Status::Present).unwrap();
    let recs = m.get_week_attendance(1);
    assert_eq!(recs.len(), 1);
    assert_eq!(recs[0].status, Status::Present);
}

#[test]
fn mark_remaining_absent_is_idempotent() {
    let mut m = abc_manager();
    m.initialize_weeks(ymd(2025, 1, 15), &vec![true]);
    m.mark(1, &vec!["anna".to_string()], Status::Present).unwrap();
    let first = m.mark_remaining_absent(1).unwrap();
    assert_eq!(first, 2);
    let before = m.get_week_attendance(1);
    let second = m.mark_remaining_absent(1).unwrap();
    assert_eq!(second, 0);
    assert_eq!(m.get_week_attendance(1), before);
}

#[test]
fn unexcused_counts_ignore_materialized_absents() {
    let mut with_fill = abc_manager();
    with_fill.initialize_weeks(ymd(2025, 1, 15), &vec![true, true]);
    with_fill.mark(1, &vec!["anna".to_string()], Status::Present).unwrap();
    with_fill.mark(1, &vec!["ben".to_string()], Status::Excused).unwrap();

    let mut without_fill = abc_manager();
    without_fill.initialize_weeks(ymd(2025, 1, 15), &vec![true, true]);
    without_fill.mark(1, &vec!["anna".to_string()], Status::Present).unwrap();
    without_fill.mark(1, &vec!["ben".to_string()], Status::Excused).unwrap();

    with_fill.mark_remaining_absent(1).unwrap();
    assert_eq!(with_fill.unexcused_counts(2), without_fill.unexcused_counts(2));
}

#[test]
fn end_to_end_week_one() {
    let mut m = abc_manager();
    m.initialize_weeks(ymd(2025, 1, 15), &vec![true, true]);
    assert_eq!(m.weeks.len(), 2);
    assert_eq!((m.weeks[0].id, m.weeks[0].date), (1, ymd(2025, 1, 22)));
    assert_eq!((m.weeks[1].id, m.weeks[1].date), (2, ymd(2025, 1, 29)));
    m.mark(1, &vec!["anna".to_string()], Status::Present).unwrap();
    m.mark(1, &vec!["ben".to_string()], Status::Excused).unwrap();
    let inserted = m.mark_remaining_absent(1).unwrap();
    assert_eq!(inserted, 1);
    let cora = m.get_student_attendance("cora");
    assert_eq!(cora.absent, vec![(1, ymd(2025, 1, 22))]);
    let anna = m.get_student_attendance("anna");
    assert_eq!(anna.present, vec![(1, ymd(2025, 1, 22))]);
    assert!(anna.absent.is_empty());
    let counts = m.unexcused_counts(2);
    assert_eq!(
        counts,
        vec![
            ("anna".to_string(), 0),
            ("ben".to_string(), 0),
            ("cora".to_string(), 1),
        ]
    );
}

#[test]
fn reconcile_with_identical_snapshot_changes_nothing() {
    let mut m = abc_manager();
    let snapshot = m.get_roster();
    let (dropped, added) = m.reconcile(&snapshot).unwrap();
    assert!(dropped.is_empty());
    assert!(added.is_empty());
    assert_eq!(m.get_roster(), snapshot);
}

#[test]
fn reconcile_applies_add_drop_and_field_updates() {
    let mut m = abc_manager();
    m.initialize_weeks(ymd(2025, 1, 15), &vec![true]);
    m.mark(1, &vec!["ben".to_string()], Status::Present).unwrap();
    let mut ben = student("ben", "benjamin@andrew.cmu.edu");
    ben.major = "ECE".to_string();
    let snapshot = vec![student("anna", "anna@andrew.cmu.edu"), ben, student("dina", "dina@x")];
    let (dropped, added) = m.reconcile(&snapshot).unwrap();
    assert_eq!(dropped.len(), 1);
    assert_eq!(dropped[0].id, "cora");
    assert_eq!(added.len(), 1);
    assert_eq!(added[0].id, "dina");
    assert_eq!(m.get_student("ben").unwrap().major, "ECE");
    // ben's record survives the reconciliation, cora left no trace
    assert_eq!(m.get_week_attendance(1).len(), 1);
    assert_eq!(m.get_week_attendance(1)[0].student, "ben");
}

#[test]
fn reconcile_refuses_snapshot_with_repeated_id() {
    let mut m = abc_manager();
    let snapshot = vec![student("dina", "d@x"), student("dina", "d2@x")];
    assert_eq!(m.reconcile(&snapshot), Err(AttendanceError::DuplicateKey));
    assert_eq!(m.num_students(), 3);
}

#[test]
fn set_current_week_declined_retro_move_is_cancelled() {
    let mut m = abc_manager();
    m.initialize_weeks(ymd(2025, 1, 15), &vec![true, true, true]);
    m.set_current_week(3, false).unwrap();
    assert_eq!(m.get_current_week(), 3);
    assert!(m.is_retroactive_move(2));
    assert!(m.is_retroactive_move(3));
    assert!(!m.is_retroactive_move(4));
    let r = m.set_current_week(2, false).unwrap();
    assert_eq!(r, SetWeekOutcome::Cancelled);
    assert_eq!(m.get_current_week(), 3);
    let r2 = m.set_current_week(2, true).unwrap();
    assert_eq!(r2, SetWeekOutcome::Changed);
    assert_eq!(m.get_current_week(), 2);
}

#[test]
fn set_current_week_unknown_id_is_an_error() {
    let mut m = abc_manager();
    m.initialize_weeks(ymd(2025, 1, 15), &vec![true]);
    assert_eq!(
        m.set_current_week(5, true),
        Err(AttendanceError::NonexistentWeek(5))
    );
    assert_eq!(m.get_current_week(), 1);
}

#[test]
fn bump_week_appends_next_week() {
    let mut m = abc_manager();
    m.initialize_weeks(ymd(2025, 1, 15), &vec![true]);
    m.bump_week();
    assert_eq!(m.weeks.len(), 2);
    assert_eq!(m.weeks[1].id, 2);
    assert_eq!(m.weeks[1].date, ymd(2025, 1, 29));
    assert_eq!(m.get_current_week(), 2);
}

#[test]
fn current_week_marks_and_removals() {
    let mut m = abc_manager();
    m.initialize_weeks(ymd(2025, 1, 15), &vec![true]);
    m.mark_attended("anna").unwrap();
    m.mark_excused_current("ben").unwrap();
    assert!(matches!(m.mark_attended("zoe"), Err(AttendanceError::NotFound)));
    let unexcused = m.get_unexcused_absentees();
    assert_eq!(unexcused.len(), 1);
    assert_eq!(unexcused[0].id, "cora");
    m.remove_attended("anna");
    // removing an excused mark as an attended one is a no-op
    m.remove_attended("ben");
    assert_eq!(m.get_week_attendance(1).len(), 1);
    m.remove_excused("ben");
    assert!(m.get_week_attendance(1).is_empty());
}

#[test]
fn reset_and_delete_week_attendance() {
    let mut m = abc_manager();
    m.initialize_weeks(ymd(2025, 1, 15), &vec![true, true]);
    m.mark_remaining_absent(1).unwrap();
    m.mark(2, &vec!["anna".to_string()], Status::Present).unwrap();
    m.delete_week_attendance(1);
    assert!(m.get_week_attendance(1).is_empty());
    assert_eq!(m.get_week_attendance(2).len(), 1);
    m.set_current_week(2, true).unwrap();
    m.reset_weekly_data();
    assert!(m.get_week_attendance(2).is_empty());
}

#[test]
fn weekly_summary_counts_excused_and_attended() {
    let mut m = abc_manager();
    m.initialize_weeks(ymd(2025, 1, 15), &vec![true, true]);
    m.mark(1, &vec!["anna".to_string(), "ben".to_string()], Status::Present).unwrap();
    m.mark(1, &vec!["cora".to_string()], Status::Excused).unwrap();
    m.mark_remaining_absent(2).unwrap();
    let summary = m.get_weekly_summary();
    assert_eq!(summary, vec![(1, (1, 2)), (2, (0, 0))]);
}

#[test]
fn weekly_data_partitions_one_week() {
    let mut m = abc_manager();
    m.initialize_weeks(ymd(2025, 1, 15), &vec![true]);
    m.mark(1, &vec!["anna".to_string()], Status::Present).unwrap();
    m.mark(1, &vec!["ben".to_string()], Status::Excused).unwrap();
    m.mark_remaining_absent(1).unwrap();
    let data = m.weekly_data_for(1);
    assert_eq!(data.week, 1);
    assert_eq!(data.attended, vec!["anna".to_string()]);
    assert_eq!(data.excused, vec!["ben".to_string()]);
    let roster = m.get_roster();
    assert_eq!(data.get_unexcused_absences(&roster), vec!["cora".to_string()]);
}

#[test]
fn delete_roster_empties_students_and_records() {
    let mut m = abc_manager();
    m.initialize_weeks(ymd(2025, 1, 15), &vec![true]);
    m.mark_remaining_absent(1).unwrap();
    let all = m.delete_roster();
    assert_eq!(all.len(), 3);
    assert_eq!(m.num_students(), 0);
    assert!(m.records.is_empty());
    assert_eq!(m.weeks.len(), 1);
}

#[test]
fn add_and_remove_student_follow_spec_errors() {
    let mut m = abc_manager();
    // a duplicate id is refused whole, with no effect
    let r = m.add_student(student("anna", "anna2@andrew.cmu.edu"));
    assert_eq!(r, Err(AttendanceError::DuplicateKey));
    assert_eq!(m.num_students(), 3);
    assert_eq!(m.get_student("anna").unwrap().email, "anna@andrew.cmu.edu");
    // a fresh id is appended
    m.add_student(student("dina", "dina@x")).unwrap();
    assert_eq!(m.num_students(), 4);
    // removing surfaces NotFound for an unknown id
    m.remove_student("dina").unwrap();
    assert_eq!(m.remove_student("dina"), Err(AttendanceError::NotFound));
    assert_eq!(m.num_students(), 3);
}
