//! The report of a run as a table of text: which rows it has, in what order,
//! and what each cell says.

use crate::solver::Outcome;
use prettytable::{Cell, Row, Table};
use vstd::prelude::*;
use vstd::string::*;

verus! {

/// `prettytable::Cell`, carried through as it is.
#[verifier::external_type_specification]
#[verifier::external_body]
pub struct ExCell(Cell);

/// `prettytable::Row`, carried through as it is.
#[verifier::external_type_specification]
#[verifier::external_body]
pub struct ExRow(Row);

/// `prettytable::Table`, carried through as it is.
#[verifier::external_type_specification]
#[verifier::external_body]
pub struct ExTable(Table);

/// The text that a cell shows.
pub uninterp spec fn cell_content(cell: Cell) -> Seq<char>;

/// The texts of the cells of a row, left to right.
pub uninterp spec fn row_cells(row: Row) -> Seq<Seq<char>>;

/// The rows of a table below its titles, top to bottom.
pub uninterp spec fn table_rows(table: Table) -> Seq<Seq<Seq<char>>>;

/// Text made of printable ASCII characters only: no line break, no escape.
pub open spec fn is_plain(text: Seq<char>) -> bool {
    forall|i: int| 0 <= i < text.len() ==> ' ' <= #[trigger] text[i] <= '~'
}

/// `Cell::new` of prettytable. Claimed: the cell shows the text it was made
/// from. The crate splits the text into lines and measures it, and its
/// measuring can panic on escape sequences, so only plain text is admitted.
#[verifier::external_body]
fn new_cell(text: &str) -> (cell: Cell)
    requires
        is_plain(text@),
    ensures
        cell_content(cell) == text@,
{
    Cell::new(text)
}

/// `Row::new` of prettytable. Claimed: the row holds the given cells, in
/// their order.
#[verifier::external_body]
fn new_row(cells: Vec<Cell>) -> (row: Row)
    ensures
        row_cells(row) == cells@.map_values(|cell: Cell| cell_content(cell)),
{
    Row::new(cells)
}

/// `Table::new` of prettytable. Claimed: the new table has no rows.
#[verifier::external_body]
fn new_table() -> (table: Table)
    ensures
        table_rows(table) == Seq::<Seq<Seq<char>>>::empty(),
{
    Table::new()
}

/// `Table::add_row` of prettytable. Claimed: the row becomes the last one,
/// and the rows before it stay.
#[verifier::external_body]
fn add_row(table: &mut Table, row: Row)
    ensures
        table_rows(*final(table)) == table_rows(*old(table)).push(row_cells(row)),
{
    table.add_row(row);
}

/// One solved pair as the report shows it. The two numbers come as text.
#[derive(Debug)]
pub struct ReportEntry {
    pub left_index: usize,
    pub right_index: usize,
    pub outcome: Outcome,
    pub te: String,
    pub residual: String,
}

/// The solved pairs of one threshold, with the threshold as text.
#[derive(Debug)]
pub struct ReportSection {
    pub threshold: String,
    pub entries: Vec<ReportEntry>,
}

/// The decimal digit of a number below ten.
pub open spec fn digit(d: int) -> char {
    seq!['0', '1', '2', '3', '4', '5', '6', '7', '8', '9'][d]
}

/// A number in decimal, without leading zeros.
pub open spec fn decimal_text(n: nat) -> Seq<char>
    decreases n,
{
    if n < 10 {
        seq![digit(n as int)]
    } else {
        decimal_text(n / 10).push(digit((n % 10) as int))
    }
}

/// The name of a pair in the report: `CS`, the left line's number, `-CS`,
/// the right line's number.
pub open spec fn label_text(left: nat, right: nat) -> Seq<char> {
    seq!['C', 'S'] + decimal_text(left) + seq!['-', 'C', 'S'] + decimal_text(right)
}

/// What follows the temperature of a solve that did not converge.
pub open spec fn outcome_mark(outcome: Outcome) -> Seq<char> {
    match outcome {
        Outcome::Converged => Seq::empty(),
        Outcome::Failed => seq![' ', '(', 'F', 'a', 'i', 'l', 'e', 'd', ')'],
        Outcome::Degenerate => seq![
            ' ',
            '(',
            'D',
            'e',
            'g',
            'e',
            'n',
            'e',
            'r',
            'a',
            't',
            'e',
            ')',
        ],
    }
}

/// Whether a solve with this outcome gets a row: a converged one always,
/// the others only where the report is to show failures.
pub open spec fn is_listed(outcome: Outcome, output_failed: bool) -> bool {
    outcome == Outcome::Converged || output_failed
}

/// The row of one solved pair.
pub open spec fn entry_row(entry: ReportEntry) -> Seq<Seq<char>> {
    seq![
        label_text(entry.left_index as nat, entry.right_index as nat),
        entry.te@ + outcome_mark(entry.outcome),
        entry.residual@,
    ]
}

/// The rows of the listed ones among `entries`, in their order.
pub open spec fn entry_rows(entries: Seq<ReportEntry>, output_failed: bool) -> Seq<Seq<Seq<char>>>
    decreases entries.len(),
{
    if entries.len() == 0 {
        Seq::empty()
    } else if is_listed(entries.last().outcome, output_failed) {
        entry_rows(entries.drop_last(), output_failed).push(entry_row(entries.last()))
    } else {
        entry_rows(entries.drop_last(), output_failed)
    }
}

/// The row that opens a section: the threshold with its unit.
pub open spec fn heading_row(threshold: Seq<char>) -> Seq<Seq<char>> {
    seq![threshold + seq![' ', 'e', 'V'], Seq::empty(), Seq::empty()]
}

/// The empty row that closes a section.
pub open spec fn blank_row() -> Seq<Seq<char>> {
    seq![Seq::empty(), Seq::empty(), Seq::empty()]
}

/// The rows of one section: heading, listed entries, blank row.
pub open spec fn section_rows(section: ReportSection, output_failed: bool) -> Seq<Seq<Seq<char>>> {
    seq![heading_row(section.threshold@)] + entry_rows(section.entries@, output_failed) + seq![
        blank_row(),
    ]
}

/// The rows of the whole report: those of each section, in order.
pub open spec fn report_rows(sections: Seq<ReportSection>, output_failed: bool) -> Seq<
    Seq<Seq<char>>,
>
    decreases sections.len(),
{
    if sections.len() == 0 {
        Seq::empty()
    } else {
        report_rows(sections.drop_last(), output_failed) + section_rows(
            sections.last(),
            output_failed,
        )
    }
}

/// Whether both numbers of every entry are plain text.
pub open spec fn entries_plain(entries: Seq<ReportEntry>) -> bool {
    forall|i: int|
        0 <= i < entries.len() ==> is_plain((#[trigger] entries[i]).te@) && is_plain(
            entries[i].residual@,
        )
}

/// Whether every text handed in with the sections is plain.
pub open spec fn sections_plain(sections: Seq<ReportSection>) -> bool {
    forall|i: int|
        0 <= i < sections.len() ==> is_plain((#[trigger] sections[i]).threshold@) && entries_plain(
            sections[i].entries@,
        )
}

/// Whether `text` is plain.
pub fn plain(text: &str) -> (r: bool)
    ensures
        r == is_plain(text@),
{
    if !text.is_ascii() {
        return false;
    }
    let bytes = text.as_bytes();
    proof {
        is_ascii_spec_bytes(text);
    }
    let mut i: usize = 0;
    while i < bytes.len()
        invariant
            i <= bytes@.len(),
            bytes@.len() == text@.len(),
            forall|k: int| 0 <= k < bytes@.len() ==> bytes@[k] == (#[trigger] text@[k]) as u8,
            forall|k: int| 0 <= k < text@.len() ==> '\0' <= #[trigger] text@[k] <= '\u{7f}',
            forall|k: int| 0 <= k < i ==> ' ' <= #[trigger] text@[k] <= '~',
        decreases bytes@.len() - i,
    {
        if bytes[i] < 0x20 || bytes[i] > 0x7E {
            assert(!(' ' <= text@[i as int] <= '~'));
            return false;
        }
        i += 1;
    }
    true
}

/// Joining plain texts gives plain text.
pub proof fn lemma_plain_concat(a: Seq<char>, b: Seq<char>)
    requires
        is_plain(a),
        is_plain(b),
    ensures
        is_plain(a + b),
{
    assert forall|i: int| 0 <= i < (a + b).len() implies ' ' <= #[trigger] (a + b)[i] <= '~' by {
        if i < a.len() {
            assert((a + b)[i] == a[i]);
        } else {
            assert((a + b)[i] == b[i - a.len()]);
        }
    }
}

/// A number in decimal is plain text.
pub proof fn lemma_decimal_plain(n: nat)
    ensures
        is_plain(decimal_text(n)),
        decimal_text(n).len() >= 1,
    decreases n,
{
    if n >= 10 {
        lemma_decimal_plain(n / 10);
        lemma_plain_concat(decimal_text(n / 10), seq![digit((n % 10) as int)]);
        assert(decimal_text(n / 10).push(digit((n % 10) as int)) =~= decimal_text(n / 10) + seq![
            digit((n % 10) as int),
        ]);
    }
}

/// The digit `d` as text.
fn digit_text(d: usize) -> (text: &'static str)
    requires
        d < 10,
    ensures
        text@ == seq![digit(d as int)],
{
    proof {
        reveal_strlit("0");
        reveal_strlit("1");
        reveal_strlit("2");
        reveal_strlit("3");
        reveal_strlit("4");
        reveal_strlit("5");
        reveal_strlit("6");
        reveal_strlit("7");
        reveal_strlit("8");
        reveal_strlit("9");
    }
    let text = match d {
        0 => "0",
        1 => "1",
        2 => "2",
        3 => "3",
        4 => "4",
        5 => "5",
        6 => "6",
        7 => "7",
        8 => "8",
        _ => "9",
    };
    assert(text@ =~= seq![digit(d as int)]);
    text
}

/// Writes a number in decimal.
pub fn decimal(n: usize) -> (text: String)
    ensures
        text@ == decimal_text(n as nat),
    decreases n,
{
    if n < 10 {
        String::from_str(digit_text(n))
    } else {
        let mut text = decimal(n / 10);
        text.append(digit_text(n % 10));
        assert(text@ =~= decimal_text((n / 10) as nat).push(digit((n % 10) as int)));
        text
    }
}

/// The name of the pair of the lines numbered `left` and `right`.
pub fn label(left: usize, right: usize) -> (text: String)
    ensures
        text@ == label_text(left as nat, right as nat),
        is_plain(text@),
{
    proof {
        reveal_strlit("CS");
        reveal_strlit("-CS");
    }
    let mut text = String::from_str("CS");
    assert(text@ =~= seq!['C', 'S']);
    text.append(decimal(left).as_str());
    text.append("-CS");
    text.append(decimal(right).as_str());
    proof {
        assert("-CS"@ =~= seq!['-', 'C', 'S']);
        assert(text@ =~= label_text(left as nat, right as nat));
        lemma_decimal_plain(left as nat);
        lemma_decimal_plain(right as nat);
        lemma_plain_concat(seq!['C', 'S'], decimal_text(left as nat));
        lemma_plain_concat(seq!['C', 'S'] + decimal_text(left as nat), seq!['-', 'C', 'S']);
        lemma_plain_concat(
            seq!['C', 'S'] + decimal_text(left as nat) + seq!['-', 'C', 'S'],
            decimal_text(right as nat),
        );
    }
    text
}

/// The mark that follows the temperature of a solve with this outcome.
fn mark(outcome: Outcome) -> (text: &'static str)
    ensures
        text@ == outcome_mark(outcome),
        is_plain(text@),
{
    proof {
        reveal_strlit("");
        reveal_strlit(" (Failed)");
        reveal_strlit(" (Degenerate)");
    }
    let text = match outcome {
        Outcome::Converged => "",
        Outcome::Failed => " (Failed)",
        Outcome::Degenerate => " (Degenerate)",
    };
    assert(text@ =~= outcome_mark(outcome));
    text
}

/// Adds a row of three cells to the table.
fn push_row(table: &mut Table, first: &str, second: &str, third: &str)
    requires
        is_plain(first@),
        is_plain(second@),
        is_plain(third@),
    ensures
        table_rows(*final(table)) == table_rows(*old(table)).push(seq![first@, second@, third@]),
{
    let mut cells: Vec<Cell> = Vec::new();
    cells.push(new_cell(first));
    cells.push(new_cell(second));
    cells.push(new_cell(third));
    let row = new_row(cells);
    assert(row_cells(row) =~= seq![first@, second@, third@]);
    add_row(table, row);
}

/// Adds the rows of the listed ones among `entries` to the table, or
/// reports that one of their numbers is not plain text.
fn push_entries(table: &mut Table, entries: &Vec<ReportEntry>, output_failed: bool) -> (done: bool)
    ensures
        done == entries_plain(entries@),
        done ==> table_rows(*final(table)) == table_rows(*old(table)) + entry_rows(
            entries@,
            output_failed,
        ),
{
    let mut i: usize = 0;
    while i < entries.len()
        invariant
            i <= entries@.len(),
            entries_plain(entries@.take(i as int)),
            table_rows(*table) == table_rows(*old(table)) + entry_rows(
                entries@.take(i as int),
                output_failed,
            ),
        decreases entries@.len() - i,
    {
        let entry = &entries[i];
        proof {
            assert(entries@.take(i + 1).drop_last() =~= entries@.take(i as int));
            assert(entries@.take(i + 1).last() == entries@[i as int]);
        }
        if !plain(entry.te.as_str()) || !plain(entry.residual.as_str()) {
            return false;
        }
        if matches!(entry.outcome, Outcome::Converged) || output_failed {
            let name = label(entry.left_index, entry.right_index);
            let mut te = entry.te.clone();
            te.append(mark(entry.outcome));
            proof {
                lemma_plain_concat(entry.te@, outcome_mark(entry.outcome));
            }
            push_row(table, name.as_str(), te.as_str(), entry.residual.as_str());
            assert(table_rows(*table) =~= table_rows(*old(table)) + entry_rows(
                entries@.take(i + 1),
                output_failed,
            ));
        }
        proof {
            assert forall|k: int| 0 <= k < i + 1 implies is_plain(
                (#[trigger] entries@.take(i + 1)[k]).te@,
            ) && is_plain(entries@.take(i + 1)[k].residual@) by {
                if k < i {
                    assert(entries@.take(i as int)[k] == entries@.take(i + 1)[k]);
                }
            }
        }
        i += 1;
    }
    assert(entries@.take(entries@.len() as int) =~= entries@);
    true
}

/// Lays the report out as a table: for each section its heading, a row for
/// each listed entry and a blank row. `None` if and only if a text that came
/// with the sections is not plain.
pub fn render(sections: &Vec<ReportSection>, output_failed: bool) -> (result: Option<Table>)
    ensures
        result is Some <==> sections_plain(sections@),
        result matches Some(table) ==> table_rows(table) == report_rows(sections@, output_failed),
{
    let mut table = new_table();
    let mut i: usize = 0;
    while i < sections.len()
        invariant
            i <= sections@.len(),
            sections_plain(sections@.take(i as int)),
            table_rows(table) == report_rows(sections@.take(i as int), output_failed),
        decreases sections@.len() - i,
    {
        let section = &sections[i];
        proof {
            assert(sections@.take(i + 1).drop_last() =~= sections@.take(i as int));
            assert(sections@.take(i + 1).last() == sections@[i as int]);
        }
        if !plain(section.threshold.as_str()) {
            return None;
        }
        let mut heading = section.threshold.clone();
        heading.append(" eV");
        proof {
            reveal_strlit("");
            reveal_strlit(" eV");
            assert(" eV"@ =~= seq![' ', 'e', 'V']);
            assert(""@ =~= Seq::<char>::empty());
            lemma_plain_concat(section.threshold@, seq![' ', 'e', 'V']);
        }
        let ghost start = table_rows(table);
        push_row(&mut table, heading.as_str(), "", "");
        if !push_entries(&mut table, &section.entries, output_failed) {
            return None;
        }
        push_row(&mut table, "", "", "");
        proof {
            assert(table_rows(table) =~= start + section_rows(sections@[i as int], output_failed));
            assert forall|k: int| 0 <= k < i + 1 implies is_plain(
                (#[trigger] sections@.take(i + 1)[k]).threshold@,
            ) && entries_plain(sections@.take(i + 1)[k].entries@) by {
                if k < i {
                    assert(sections@.take(i as int)[k] == sections@.take(i + 1)[k]);
                }
            }
        }
        i += 1;
    }
    assert(sections@.take(sections@.len() as int) =~= sections@);
    Some(table)
}

} // verus!
