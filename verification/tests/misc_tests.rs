use grid_challenge::env_file::parse_env_file;
use grid_challenge::errors::AppError;
use grid_challenge::export::{count_cells, CellFlags};
use grid_challenge::gpx::{duration_seconds, preview_positions, track_time_span};

#[test]
fn env_file_settings() {
    let text = "A=1\n# comment\n\n  B = two words \r\nNOEQ\nC=x=y\n=empty key\n";
    let got = parse_env_file(text);
    let want: Vec<(String, String)> = vec![
        ("A".into(), "1".into()),
        ("B".into(), "two words".into()),
        ("C".into(), "x=y".into()),
        ("".into(), "empty key".into()),
    ];
    assert_eq!(got, want);
    assert!(parse_env_file("").is_empty());
}

#[test]
fn error_constructors() {
    let e = AppError::bad_request("x");
    assert_eq!((e.status, e.message.as_str()), (400, "x"));
    let e = AppError::unauthorized();
    assert_eq!((e.status, e.message.as_str()), (401, "Unauthorized"));
    let e = AppError::not_found("gone");
    assert_eq!((e.status, e.message.as_str()), (404, "gone"));
    let e = AppError::internal("boom");
    assert_eq!((e.status, e.message.as_str()), (500, "boom"));
    assert_eq!(AppError::database().message, "Database error");
    assert_eq!(AppError::hidden_internal().message, "Internal server error");
}

#[test]
fn cell_counts() {
    let cells = vec![
        CellFlags { has_trail: true, visited: true },
        CellFlags { has_trail: true, visited: false },
        CellFlags { has_trail: false, visited: true },
        CellFlags { has_trail: true, visited: true },
    ];
    assert_eq!(count_cells(&cells), (3, 2));
    assert_eq!(count_cells(&vec![]), (0, 0));
}

#[test]
fn track_span_and_duration() {
    // The start is the earliest time of any point (here in the middle of a
    // segment whose first point has no time); the end is the latest of the
    // segments' last-point times (a later time inside a segment is not one).
    let segs = vec![
        vec![None, Some(5_000_000_000), Some(3_000_000_000), Some(20_000_000_000), Some(9_000_000_000)],
        vec![],
        vec![Some(4_000_000_000), None],
        vec![None, None],
    ];
    let (first, last) = track_time_span(&segs);
    assert_eq!((first, last), (Some(3_000_000_000), Some(9_000_000_000)));
    assert_eq!(duration_seconds(first, last), Some(6));
    assert_eq!(track_time_span(&vec![vec![None, None]]), (None, None));
    assert_eq!(track_time_span(&vec![]), (None, None));
    assert_eq!(duration_seconds(Some(0), Some(2_500_000_000)), Some(2));
    assert_eq!(duration_seconds(Some(0), Some(999_999_999)), None);
    assert_eq!(duration_seconds(Some(5), Some(1)), None);
    assert_eq!(duration_seconds(None, Some(1)), None);
}

#[test]
fn preview_sampling() {
    assert_eq!(preview_positions(0), None);
    assert_eq!(preview_positions(1), None);
    assert_eq!(preview_positions(2), Some(vec![0, 1]));
    let p = preview_positions(450).unwrap();
    assert_eq!(p.len(), 225);
    assert_eq!(p[224], 448);
    let p = preview_positions(399).unwrap();
    assert_eq!(p.len(), 399);
}
