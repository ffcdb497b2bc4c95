//! Tests of the calendar bridge, the mail session text, the at-risk
//! ordering, the absentee selections, and state restoration.

use attendance::date::Date;
use attendance::absentees::recipient_emails;
use attendance::manager::AttendanceManager;
use attendance::models::{Attendance, Status, Student, Week};
use attendance::smtp::smtp_commands;
use chrono::Datelike;

fn mk_student(id: &str, email: &str) -> Student {
    Student {
        id: id.to_string(),
        email: email.to_string(),
        first_name: id.to_uppercase(),
        last_name: "Tester".to_string(),
        major: "CS".to_string(),
        class: 2026,
        graduation_semester: "S26".to_string(),
    }
}

fn date_of(y: i32, mo: u32, d: u32) -> Date {
    Date::from_ymd(y, mo, d).unwrap()
}

#[test]
fn date_from_ymd_counts_proleptic_gregorian_days() {
    // chrono's documented anchor: January 1 of year 1 is day 1
    assert_eq!(date_of(1, 1, 1).day, 1);
    assert_eq!(date_of(1970, 1, 1).day, 719_163);
    assert_eq!(date_of(2025, 1, 22).day, date_of(2025, 1, 15).day + 7);
    assert_eq!(date_of(2025, 3, 1).day, date_of(2025, 2, 28).day + 1);
    assert!(Date::from_ymd(2025, 2, 30).is_none());
    assert!(Date::from_ymd(2025, 13, 1).is_none());
    let direct = chrono::NaiveDate::from_ymd_opt(2031, 7, 4).unwrap().num_days_from_ce();
    assert_eq!(date_of(2031, 7, 4).day, direct as i64);
}

#[test]
fn smtp_commands_follow_the_submission_script() {
    let recipients = vec!["x@andrew.cmu.edu".to_string()];
    let cmds = smtp_commands(
        "course-staff@gmail.com",
        "ta@andrew.cmu.edu",
        &recipients,
        "Missed class",
        "<p>We missed you.</p>",
        "SECRET-REDACTED",
    );
    assert_eq!(cmds.len(), 11 + 1 + 1);
    assert_eq!(cmds[0], "EHLO example.com\r\n");
    assert_eq!(cmds[1], "STARTTLS\r\n");
    assert_eq!(cmds[3], "AUTH LOGIN\r\n");
    // base64 of the sender, as the standard alphabet encodes it
    assert_eq!(cmds[4], "Y291cnNlLXN0YWZmQGdtYWlsLmNvbQ==\r\n");
    assert_eq!(cmds[6], "MAIL FROM:<course-staff@gmail.com>\r\n");
    assert_eq!(cmds[7], "RCPT TO:<x@andrew.cmu.edu>\r\n");
    assert_eq!(cmds[8], "RCPT TO:<ta@andrew.cmu.edu>\r\n");
    assert_eq!(cmds[9], "DATA\r\n");
    assert!(cmds[10].starts_with("From: course-staff@gmail.com\r\n"));
    assert!(cmds[10].contains("Subject: Missed class\r\n"));
    assert_eq!(cmds[11], "<p>We missed you.</p>\r\n.\r\n");
    assert_eq!(cmds[12], "QUIT\r\n");
}

#[test]
fn at_risk_list_orders_by_count_then_id() {
    let mut m = AttendanceManager::new();
    m.insert_students(&vec![
        mk_student("bob", "bob@x"),
        mk_student("ann", "ann@x"),
        mk_student("cal", "cal@x"),
    ])
    .unwrap();
    m.initialize_weeks(date_of(2025, 1, 15), &vec![true, true, true, true]);
    // cal misses weeks 1-3, ann and bob miss weeks 1-2
    m.mark(1, &vec!["ann".to_string(), "bob".to_string(), "cal".to_string()], Status::Absent)
        .unwrap();
    m.mark(2, &vec!["ann".to_string(), "bob".to_string(), "cal".to_string()], Status::Absent)
        .unwrap();
    m.mark(3, &vec!["cal".to_string()], Status::Absent).unwrap();
    m.mark(3, &vec!["ann".to_string(), "bob".to_string()], Status::Present).unwrap();
    m.set_current_week(4, false).unwrap();
    let (counts, warnings) = m.aggregate_unexcused_with_warning(2);
    assert_eq!(counts.len(), 3);
    let order: Vec<(String, u32)> =
        warnings.iter().map(|(s, c)| (s.id.clone(), *c)).collect();
    assert_eq!(
        order,
        vec![("cal".to_string(), 3), ("ann".to_string(), 2), ("bob".to_string(), 2)]
    );
}

#[test]
fn at_risk_threshold_filters() {
    let mut m = AttendanceManager::new();
    m.insert_students(&vec![mk_student("ann", "ann@x"), mk_student("bob", "bob@x")]).unwrap();
    m.initialize_weeks(date_of(2025, 1, 15), &vec![true, true]);
    m.mark(1, &vec!["ann".to_string()], Status::Absent).unwrap();
    m.mark(1, &vec!["bob".to_string()], Status::Present).unwrap();
    m.set_current_week(2, false).unwrap();
    let (_, warnings) = m.aggregate_unexcused_with_warning(1);
    assert_eq!(warnings.len(), 1);
    assert_eq!(warnings[0].0.id, "ann");
}

#[test]
fn absentee_selections_count_omission_like_explicit_absence() {
    let mut m = AttendanceManager::new();
    m.insert_students(&vec![mk_student("ann", "ann@x"), mk_student("bob", "bob@x")]).unwrap();
    m.initialize_weeks(date_of(2025, 1, 15), &vec![true, true, true]);
    // ann: explicit absents in weeks 1 and 2, nothing in week 3
    m.mark(1, &vec!["ann".to_string()], Status::Absent).unwrap();
    m.mark(2, &vec!["ann".to_string()], Status::Absent).unwrap();
    // bob: present in week 1, nothing afterwards
    m.mark(1, &vec!["bob".to_string()], Status::Present).unwrap();
    // explicit and implicit absences select alike
    let week_one = m.weekly_absentees(1);
    assert_eq!(week_one.len(), 1);
    assert_eq!(week_one[0].id, "ann");
    let week_three = m.weekly_absentees(3);
    let ids: Vec<&str> = week_three.iter().map(|s| s.id.as_str()).collect();
    assert_eq!(ids, vec!["ann", "bob"]);
    // a week outside the ledger selects nobody
    assert!(m.weekly_absentees(9).is_empty());
    // cumulative counts include weeks with no record at all
    let from_week_one = m.cumulative_absentees(1, 3);
    assert_eq!(from_week_one.len(), 1);
    assert_eq!(from_week_one[0].0.id, "ann");
    assert_eq!(from_week_one[0].1, 3);
    let from_week_two = m.cumulative_absentees(2, 2);
    let picked: Vec<(&str, usize)> =
        from_week_two.iter().map(|(s, n)| (s.id.as_str(), *n)).collect();
    assert_eq!(picked, vec![("ann", 2), ("bob", 2)]);
    // the materialized-row listing still shows the explicit records only
    assert_eq!(
        m.absences_since("ann", 1),
        vec![(1, date_of(2025, 1, 22)), (2, date_of(2025, 1, 29))]
    );
    assert_eq!(m.absences_since("bob", 1), vec![]);
    assert_eq!(recipient_emails(&week_one), vec!["ann@x".to_string()]);
}

#[test]
fn cumulative_selection_ignores_materialization() {
    let mut m = AttendanceManager::new();
    m.insert_students(&vec![mk_student("ann", "ann@x"), mk_student("bob", "bob@x")]).unwrap();
    m.initialize_weeks(date_of(2025, 1, 15), &vec![true, true]);
    m.mark(1, &vec!["bob".to_string()], Status::Excused).unwrap();
    let before = m.cumulative_absentees(1, 2);
    m.mark_remaining_absent(1).unwrap();
    m.mark_remaining_absent(2).unwrap();
    let after = m.cumulative_absentees(1, 2);
    let names = |v: &Vec<(Student, usize)>| {
        v.iter().map(|(s, n)| (s.id.clone(), *n)).collect::<Vec<_>>()
    };
    assert_eq!(names(&before), names(&after));
    assert_eq!(names(&after), vec![("ann".to_string(), 2)]);
}

#[test]
fn from_parts_accepts_exactly_well_formed_states() {
    let roster = vec![mk_student("ann", "ann@x")];
    let weeks = vec![Week { id: 1, date: date_of(2025, 1, 22) }];
    let records =
        vec![Attendance { student: "ann".to_string(), week: 1, status: Status::Present }];
    let ok = AttendanceManager::from_parts(
        roster.clone(),
        weeks.clone(),
        records.clone(),
        1,
    );
    assert!(ok.is_some());

    let dup_roster = vec![mk_student("ann", "a@x"), mk_student("ann", "b@x")];
    assert!(AttendanceManager::from_parts(dup_roster, weeks.clone(), vec![], 1).is_none());

    let bad_weeks = vec![Week { id: 2, date: date_of(2025, 1, 22) }];
    assert!(AttendanceManager::from_parts(roster.clone(), bad_weeks, vec![], 1).is_none());

    let dangling = vec![Attendance {
        student: "zoe".to_string(),
        week: 1,
        status: Status::Absent,
    }];
    assert!(AttendanceManager::from_parts(roster.clone(), weeks.clone(), dangling, 1).is_none());

    let dup_records = vec![
        Attendance { student: "ann".to_string(), week: 1, status: Status::Present },
        Attendance { student: "ann".to_string(), week: 1, status: Status::Absent },
    ];
    assert!(
        AttendanceManager::from_parts(roster.clone(), weeks.clone(), dup_records, 1).is_none()
    );

    assert!(AttendanceManager::from_parts(roster, weeks, records, 7).is_none());
}

#[test]
fn diff_is_keyed_by_id() {
    let current = vec![mk_student("ann", "ann@x"), mk_student("bob", "bob@x")];
    let mut bob2 = mk_student("bob", "bob@x");
    bob2.major = "Math".to_string();
    let incoming = vec![bob2, mk_student("cal", "cal@x")];
    let (dropped, added) = attendance::reconcile::diff(&current, &incoming);
    // bob changed a field but keeps his id, so he is neither dropped nor added
    assert_eq!(dropped.len(), 1);
    assert_eq!(dropped[0].id, "ann");
    assert_eq!(added.len(), 1);
    assert_eq!(added[0].id, "cal");
}
