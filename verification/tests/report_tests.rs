use electron_temp::report::{decimal, label, plain, render, ReportEntry, ReportSection};
use electron_temp::solver::Outcome;
use prettytable::Table;

fn entry(left: usize, right: usize, outcome: Outcome, te: &str, residual: &str) -> ReportEntry {
    ReportEntry {
        left_index: left,
        right_index: right,
        outcome,
        te: te.to_string(),
        residual: residual.to_string(),
    }
}

fn section(threshold: &str, entries: Vec<ReportEntry>) -> ReportSection {
    ReportSection { threshold: threshold.to_string(), entries }
}

fn texts(table: &Table) -> Vec<Vec<String>> {
    let mut rows = Vec::new();
    for i in 0..table.len() {
        let row = table.get_row(i).unwrap();
        let mut cells = Vec::new();
        for j in 0..row.len() {
            cells.push(row.get_cell(j).unwrap().get_content());
        }
        rows.push(cells);
    }
    rows
}

fn row(a: &str, b: &str, c: &str) -> Vec<String> {
    vec![a.to_string(), b.to_string(), c.to_string()]
}

fn two_sections() -> Vec<ReportSection> {
    vec![
        section(
            "30.0",
            vec![
                entry(1, 2, Outcome::Converged, "2.5", "1e-16"),
                entry(1, 3, Outcome::Failed, "-inf", "-0.9631"),
                entry(2, 1, Outcome::Degenerate, "1.0", "1.0"),
                entry(2, 3, Outcome::Converged, "7.25", "-2e-15"),
            ],
        ),
        section("40.0", vec![entry(12, 345, Outcome::Failed, "NaN", "0.5")]),
    ]
}

#[test]
fn numbers_are_written_in_decimal() {
    assert_eq!(decimal(0), "0");
    assert_eq!(decimal(7), "7");
    assert_eq!(decimal(10), "10");
    assert_eq!(decimal(109), "109");
    assert_eq!(decimal(usize::MAX), usize::MAX.to_string());
    for n in 0..2000usize {
        assert_eq!(decimal(n), n.to_string());
    }
}

#[test]
fn a_label_names_the_left_line_then_the_right() {
    assert_eq!(label(1, 2), "CS1-CS2");
    assert_eq!(label(6, 5), "CS6-CS5");
    assert_eq!(label(12, 345), "CS12-CS345");
}

#[test]
fn plain_text_is_printable_ascii() {
    assert!(plain(""));
    assert!(plain("1.4551915228366852e-11"));
    assert!(plain(" (Failed)~"));
    assert!(!plain("a\nb"));
    assert!(!plain("a\r"));
    assert!(!plain("\t"));
    assert!(!plain("\u{1b}[31m"));
    assert!(!plain("\u{7f}"));
    assert!(!plain("5 \u{b5}m"));
    assert!(!plain("\u{2212}1"));
}

#[test]
fn an_empty_report_is_an_empty_table() {
    let table = render(&Vec::new(), true).unwrap();
    assert_eq!(table.len(), 0);
    assert_eq!(table, Table::new());
}

#[test]
fn a_section_without_entries_is_a_heading_and_a_blank_row() {
    let table = render(&vec![section("50.0", Vec::new())], false).unwrap();
    assert_eq!(texts(&table), vec![row("50.0 eV", "", ""), row("", "", "")]);
}

#[test]
fn failures_are_left_out_unless_asked_for() {
    let table = render(&two_sections(), false).unwrap();
    assert_eq!(
        texts(&table),
        vec![
            row("30.0 eV", "", ""),
            row("CS1-CS2", "2.5", "1e-16"),
            row("CS2-CS3", "7.25", "-2e-15"),
            row("", "", ""),
            row("40.0 eV", "", ""),
            row("", "", ""),
        ]
    );
}

#[test]
fn failures_are_marked_when_asked_for() {
    let table = render(&two_sections(), true).unwrap();
    assert_eq!(
        texts(&table),
        vec![
            row("30.0 eV", "", ""),
            row("CS1-CS2", "2.5", "1e-16"),
            row("CS1-CS3", "-inf (Failed)", "-0.9631"),
            row("CS2-CS1", "1.0 (Degenerate)", "1.0"),
            row("CS2-CS3", "7.25", "-2e-15"),
            row("", "", ""),
            row("40.0 eV", "", ""),
            row("CS12-CS345", "NaN (Failed)", "0.5"),
            row("", "", ""),
        ]
    );
}

#[test]
fn the_table_is_the_one_that_adding_the_rows_by_hand_gives() {
    let mut expected = Table::new();
    for cells in [
        ["30.0 eV", "", ""],
        ["CS1-CS2", "2.5", "1e-16"],
        ["CS2-CS3", "7.25", "-2e-15"],
        ["", "", ""],
        ["40.0 eV", "", ""],
        ["", "", ""],
    ] {
        expected.add_row(prettytable::Row::new(
            cells.iter().map(|c| prettytable::Cell::new(c)).collect(),
        ));
    }
    assert_eq!(render(&two_sections(), false).unwrap(), expected);
}

#[test]
fn text_that_is_not_plain_is_refused() {
    let mut sections = two_sections();
    sections[1].threshold = "40.0\n".to_string();
    assert!(render(&sections, true).is_none());

    let mut sections = two_sections();
    sections[0].entries[3].te = "7.25\u{1b}[0m".to_string();
    assert!(render(&sections, true).is_none());

    let mut sections = two_sections();
    sections[0].entries[1].residual = "-0.9631\r".to_string();
    assert!(render(&sections, true).is_none());
    // Also where the entry itself would not get a row.
    assert!(render(&sections, false).is_none());
}
