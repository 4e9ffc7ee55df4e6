use hbs_schedule::tabula::issue_date_from_text;
use hbs_schedule::{ErrorKind, TabulaParser};

fn row(cells: &[&str]) -> Vec<String> {
    cells.iter().map(|c| c.to_string()).collect()
}

#[test]
fn continuation_row_appends_to_block() {
    let table = vec![
        row(&["", "7a", "7b"]),
        row(&["1", "Math", ""]),
        row(&["-", "Room 12", "Bio"]),
        row(&["2", "", "Art"]),
    ];
    let schedule = TabulaParser::schedule_from_tables(&vec![table], 42);
    assert_eq!(schedule.pdf_issue_date, 42);
    let a = schedule.get("7a").unwrap();
    assert_eq!(a.blocks[0], Some("Math\nRoom 12".to_string()));
    assert_eq!(a.blocks[1], None);
    let b = schedule.get("7b").unwrap();
    assert_eq!(b.blocks[0], Some("Bio".to_string()));
    assert_eq!(b.blocks[1], Some("Art".to_string()));
    assert_eq!(b.blocks.len(), 6);
}

#[test]
fn later_table_wins_for_a_class() {
    let first = vec![row(&["", "7a"]), row(&["1", "Math"])];
    let second = vec![row(&["", "7a"]), row(&["1", "Art"])];
    let schedule = TabulaParser::schedule_from_tables(&vec![first, second], 0);
    assert_eq!(schedule.get("7a").unwrap().blocks[0], Some("Art".to_string()));
    assert!(schedule.get("7b").is_none());
}

#[test]
fn empty_table_gives_no_entries() {
    let schedule = TabulaParser::schedule_from_tables(&vec![vec![]], 0);
    assert!(schedule.entries.is_empty());
}

#[test]
fn issue_date_from_document_text() {
    let text = "Vertretungsplan\nDatum: Montag, 18.10.2026\nBlock 1";
    assert_eq!(issue_date_from_text(text), Ok(1792281600000));
    assert_eq!(issue_date_from_text("Datum: 01.01.1970\n"), Err(ErrorKind::DateParse));
    assert_eq!(issue_date_from_text("Datum: Do, 01.01.1970\n"), Ok(0));
    assert_eq!(issue_date_from_text("Datum: a, b, 29.02.2000\n"), Ok(951782400000));
}

#[test]
fn issue_date_errors_from_document_text() {
    assert_eq!(issue_date_from_text("no date here\n"), Err(ErrorKind::DateNotFound));
    assert_eq!(issue_date_from_text("Datum: Montag, 18.10.2026"), Err(ErrorKind::DateMalformed));
    assert_eq!(issue_date_from_text("Datum: Montag, 18-10-2026\n"), Err(ErrorKind::DateParse));
}
