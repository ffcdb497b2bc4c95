//! Tests of the status codec, the text helpers, and the configuration
//! helpers.

use attendance::config::{find_template, get_config, AppConfig, EmailTemplate, SetupDetails};
use attendance::date::Date;
use attendance::models::{AttendanceError, Status};
use attendance::text::{id_from_email, is_affirmative, parse_recipients, str_eq, str_lt, trim};

#[test]
fn status_round_trips_through_its_encoding() {
    for st in [Status::Present, Status::Excused, Status::Absent] {
        assert_eq!(Status::decode(st.encode().as_str()), Ok(st));
    }
    assert_eq!(Status::encode(&Status::Present), "Present");
    assert_eq!(Status::encode(&Status::Excused), "Excused");
    assert_eq!(Status::encode(&Status::Absent), "Absent");
}

#[test]
fn status_decode_refuses_unknown_text() {
    assert_eq!(Status::decode("present"), Err(AttendanceError::DecodeError));
    assert_eq!(Status::decode(""), Err(AttendanceError::DecodeError));
    assert_eq!(Status::decode("Tardy"), Err(AttendanceError::DecodeError));
}

#[test]
fn str_eq_and_str_lt_compare_by_content() {
    assert!(str_eq("abc", "abc"));
    assert!(!str_eq("abc", "abd"));
    assert!(!str_eq("abc", "ab"));
    assert!(str_lt("ann", "ben"));
    assert!(str_lt("ab", "abc"));
    assert!(!str_lt("ben", "ann"));
    assert!(!str_lt("ann", "ann"));
}

#[test]
fn trim_strips_surrounding_white_space() {
    assert_eq!(trim("  hi there\t\n"), "hi there");
    assert_eq!(trim("hi"), "hi");
    assert_eq!(trim("   "), "");
    assert_eq!(trim(""), "");
}

#[test]
fn parse_recipients_splits_and_trims() {
    assert_eq!(
        parse_recipients("a@x.com, b@y.com ,c@z.com"),
        vec!["a@x.com".to_string(), "b@y.com".to_string(), "c@z.com".to_string()]
    );
    assert_eq!(parse_recipients("solo@x.com"), vec!["solo@x.com".to_string()]);
    assert_eq!(parse_recipients(""), vec!["".to_string()]);
    assert_eq!(
        parse_recipients("a,,b"),
        vec!["a".to_string(), "".to_string(), "b".to_string()]
    );
}

#[test]
fn affirmation_is_a_case_insensitive_y() {
    assert!(is_affirmative("y"));
    assert!(is_affirmative("Y"));
    assert!(is_affirmative("  y \n"));
    assert!(!is_affirmative("yes"));
    assert!(!is_affirmative(""));
    assert!(!is_affirmative("n"));
}

#[test]
fn id_from_email_strips_the_institutional_domain() {
    assert_eq!(id_from_email("jdoe@andrew.cmu.edu"), Some("jdoe".to_string()));
    assert_eq!(id_from_email("  jdoe@andrew.cmu.edu \n"), Some("jdoe".to_string()));
    assert_eq!(id_from_email("jdoe@gmail.com"), None);
    assert_eq!(id_from_email("short"), None);
}

#[test]
fn get_config_hands_back_the_setup_section() {
    let cfg = AppConfig {
        setup: SetupDetails {
            roster_path: "roster.csv".to_string(),
            start_date: Date::from_ymd(2025, 1, 15).unwrap(),
            valid_weeks: vec![true, false, true],
        },
    };
    let setup = get_config(cfg);
    assert_eq!(setup.roster_path, "roster.csv");
    assert_eq!(setup.valid_weeks, vec![true, false, true]);
}

#[test]
fn find_template_looks_up_by_name() {
    let templates = vec![
        (
            "weekly".to_string(),
            EmailTemplate {
                subject: "Missed class".to_string(),
                body_path: "weekly.html".to_string(),
            },
        ),
        (
            "cumulative".to_string(),
            EmailTemplate {
                subject: "Many absences".to_string(),
                body_path: "cumulative.html".to_string(),
            },
        ),
    ];
    let found = find_template(&templates, "cumulative").unwrap();
    assert_eq!(found.subject, "Many absences");
    assert!(find_template(&templates, "missing").is_none());
}
