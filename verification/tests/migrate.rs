use oxidarr::migrate::{migrate_lines, parse_args, status_lines};

#[test]
fn parses_required_db_flag() {
    let args = vec!["--db".to_string(), "/tmp/x.db".to_string()];
    let parsed = parse_args(&args).unwrap();
    assert_eq!(parsed.db, "/tmp/x.db");
    assert!(!parsed.status);
}

#[test]
fn parses_status_flag_regardless_of_order() {
    let args = vec![
        "--status".to_string(),
        "--db".to_string(),
        "/tmp/x.db".to_string(),
    ];
    let parsed = parse_args(&args).unwrap();
    assert_eq!(parsed.db, "/tmp/x.db");
    assert!(parsed.status);
}

#[test]
fn missing_db_flag_is_an_error() {
    assert!(parse_args(&[]).is_err());
}

#[test]
fn db_flag_without_a_value_is_an_error() {
    let args = vec!["--db".to_string()];
    assert!(parse_args(&args).is_err());
}

#[test]
fn unknown_flag_is_an_error() {
    let args = vec!["--bogus".to_string()];
    assert!(parse_args(&args).is_err());
}

#[test]
fn a_later_db_flag_wins() {
    let args = vec!["--db".to_string(), "a".to_string(), "--db".to_string(), "b".to_string()];
    assert_eq!(parse_args(&args).unwrap().db, "b");
}

fn migrations() -> Vec<(i64, String)> {
    vec![(1, "init".to_string()), (2, "indexers".to_string()), (12345, "big".to_string())]
}

#[test]
fn status_reports_every_migration_in_order() {
    assert_eq!(
        status_lines(&migrations(), &[2]),
        vec![
            "pending 0001_init".to_string(),
            "applied 0002_indexers".to_string(),
            "pending 12345_big".to_string(),
        ]
    );
}

#[test]
fn migrate_reports_only_the_newly_applied() {
    assert_eq!(
        migrate_lines(&migrations(), &[1], &[1, 2, 12345]),
        vec!["applied 0002_indexers".to_string(), "applied 12345_big".to_string()]
    );
}

#[test]
fn migrate_with_nothing_new_is_up_to_date() {
    assert_eq!(migrate_lines(&migrations(), &[1, 2], &[1, 2]), vec!["up to date".to_string()]);
}
