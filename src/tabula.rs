//! Assembling substitutions from rectangular tables whose first row holds the
//! class names and whose first column holds the block labels.

use vstd::prelude::*;
use crate::schedule::{
    block_text, cell_text, entries_view, opt_view, SubstitutionColumn, SubstitutionSchedule, BLOCK_COUNT,
};
use crate::date::{dmy_date, parse_date_token, parsed_millis};
use crate::error::ErrorKind;
use crate::text::{contains_seq, find_first, find_last, first_occurrence, last_occurrence, occurs_at, starts_with_char};
use vstd::string::StrSliceExecFns;

verus! {

/// The part of `s` after the last ", ", or all of `s` where it holds none.
pub open spec fn after_last_comma(s: Seq<char>) -> Seq<char> {
    if contains_seq(s, ", "@) {
        let k = choose|k: int| last_occurrence(s, ", "@, k);
        s.subrange(k + ", "@.len(), s.len() as int)
    } else {
        s
    }
}

/// The issue date in a document's text: from the first "Datum: " to the end
/// of its line, the part after the last ", " read as "DD.MM.YYYY".
pub open spec fn text_issue_date(s: Seq<char>) -> Result<i64, ErrorKind> {
    if !contains_seq(s, "Datum: "@) {
        Err(ErrorKind::DateNotFound)
    } else {
        let i = choose|i: int| first_occurrence(s, "Datum: "@, i);
        let rest = s.subrange(i, s.len() as int);
        if !contains_seq(rest, "\n"@) {
            Err(ErrorKind::DateMalformed)
        } else {
            let e = choose|e: int| first_occurrence(rest, "\n"@, e);
            parsed_millis(dmy_date(after_last_comma(rest.subrange(0, e))))
        }
    }
}

/// Reads the issue date from a document's text: the line that holds
/// "Datum: " ends in ", DD.MM.YYYY".
pub fn issue_date_from_text(text: &str) -> (r: Result<i64, ErrorKind>)
    ensures
        r == text_issue_date(text@),
{
    let i = match find_first(text, "Datum: ") {
        Some(i) => i,
        None => {
            return Err(ErrorKind::DateNotFound);
        },
    };
    assert(i <= text@.len());
    let n = text.unicode_len();
    let rest = text.substring_char(i, n);
    let e = match find_first(rest, "\n") {
        Some(e) => e,
        None => {
            return Err(ErrorKind::DateMalformed);
        },
    };
    let line = rest.substring_char(0, e);
    let last = find_last(line, ", ");
    let token = match last {
        Some(k) => {
            let m = line.unicode_len();
            let w = ", ".unicode_len();
            line.substring_char(k + w, m)
        },
        None => line,
    };
    proof {
        let s = text@;
        let ci = choose|c: int| first_occurrence(s, "Datum: "@, c);
        assert(ci == i) by {
            if ci < i {
                assert(!occurs_at(s, "Datum: "@, ci));
            } else if ci > i {
                assert(!occurs_at(s, "Datum: "@, i as int));
            }
        }
        let ce = choose|c: int| first_occurrence(rest@, "\n"@, c);
        assert(ce == e) by {
            if ce < e {
                assert(!occurs_at(rest@, "\n"@, ce));
            } else if ce > e {
                assert(!occurs_at(rest@, "\n"@, e as int));
            }
        }
        if let Some(k) = last {
            let k = k as int;
            let ck = choose|c: int| last_occurrence(line@, ", "@, c);
            assert(ck == k) by {
                if ck < k {
                    assert(!occurs_at(line@, ", "@, k));
                } else if ck > k {
                    assert(!occurs_at(line@, ", "@, ck));
                }
            }
        }
    }
    parse_date_token(token)
}

/// The characters of each cell of a table.
pub open spec fn table_view(t: Seq<Vec<String>>) -> Seq<Seq<Seq<char>>> {
    t.map_values(|row: Vec<String>| row@.map_values(|s: String| s@))
}

/// Row `r`'s label starts with "-": the row continues the block before it.
pub open spec fn is_continuation(tv: Seq<Seq<Seq<char>>>, r: int) -> bool {
    tv[r].len() > 0 && tv[r][0].len() > 0 && tv[r][0][0] == '-'
}

/// The lesson block that data row `r` belongs to: the first data row opens
/// block 0, every later row opens the next block unless it continues.
pub open spec fn row_block(tv: Seq<Seq<Seq<char>>>, r: int) -> int
    decreases r,
{
    if r <= 1 {
        0
    } else if is_continuation(tv, r) {
        row_block(tv, r - 1)
    } else {
        row_block(tv, r - 1) + 1
    }
}

/// The cell of row `r` in column `c`; empty where the row is shorter.
pub open spec fn cell_at(tv: Seq<Seq<Seq<char>>>, r: int, c: int) -> Seq<char> {
    if 0 <= c < tv[r].len() {
        tv[r][c]
    } else {
        Seq::empty()
    }
}

/// The non-empty cells of column `c` in block `b` among the first `n` rows,
/// top first.
pub open spec fn block_parts(tv: Seq<Seq<Seq<char>>>, c: int, b: int, n: int) -> Seq<Seq<char>>
    decreases n,
{
    if n <= 1 {
        Seq::empty()
    } else {
        let p = block_parts(tv, c, b, n - 1);
        if row_block(tv, n - 1) == b && cell_at(tv, n - 1, c).len() > 0 {
            p.push(cell_at(tv, n - 1, c))
        } else {
            p
        }
    }
}

/// The six blocks of the class in column `c`.
pub open spec fn class_blocks(tv: Seq<Seq<Seq<char>>>, c: int) -> Seq<Option<Seq<char>>> {
    Seq::new(BLOCK_COUNT as nat, |b: int| block_text(block_parts(tv, c, b, tv.len() as int)))
}

/// The entries of a table: one per class of the header row, in order.
pub open spec fn table_entries(tv: Seq<Seq<Seq<char>>>) -> Seq<(Seq<char>, Seq<Option<Seq<char>>>)> {
    if tv.len() == 0 || tv[0].len() == 0 {
        Seq::empty()
    } else {
        Seq::new((tv[0].len() - 1) as nat, |i: int| (tv[0][i + 1], class_blocks(tv, i + 1)))
    }
}

/// The entries of the first `n` tables, in order.
pub open spec fn tables_entries(ts: Seq<Vec<Vec<String>>>, n: int) -> Seq<(Seq<char>, Seq<Option<Seq<char>>>)>
    decreases n,
{
    if n <= 0 {
        Seq::empty()
    } else {
        tables_entries(ts, n - 1) + table_entries(table_view(ts[n - 1]@))
    }
}

/// The block of every row: entry `r` is `row_block(r)` for each data row.
fn row_blocks(table: &Vec<Vec<String>>) -> (r: Vec<usize>)
    ensures
        r@.len() == table@.len(),
        forall|k: int| 1 <= k < r@.len() ==> r@[k] as int == row_block(table_view(table@), k),
{
    let ghost tv = table_view(table@);
    let mut r: Vec<usize> = Vec::new();
    let mut block: usize = 0;
    let mut k: usize = 0;
    while k < table.len()
        invariant
            tv == table_view(table@),
            k <= table@.len(),
            r@.len() == k,
            block <= k,
            k > 1 ==> block as int == row_block(tv, k - 1),
            k <= 1 ==> block == 0,
            forall|j: int| 1 <= j < k ==> r@[j] as int == row_block(tv, j),
        decreases table@.len() - k,
    {
        if k > 1 {
            let row = &table[k];
            let continues = row.len() > 0 && starts_with_char(row[0].as_str(), '-');
            assert(tv[k as int] == row@.map_values(|s: String| s@));
            if row.len() > 0 {
                assert(tv[k as int][0] == row@[0]@);
            }
            if !continues {
                block = block + 1;
            }
        }
        r.push(block);
        k = k + 1;
    }
    r
}

/// Builds schedules from the rectangular tables that an outside table
/// extractor finds in the document.
pub struct TabulaParser;

impl TabulaParser {

/// Grabs the classes and their substitutions from a table: the first row
/// names the classes after its first cell; each later row adds its non-empty
/// cells to the current block of each class, and opens the next block first
/// unless its label starts with "-". Rows past the sixth block are left out.
fn table_to_substitutions(table: &Vec<Vec<String>>) -> (r: Vec<(String, SubstitutionColumn)>)
    ensures
        entries_view(r@) == table_entries(table_view(table@)),
{
    let ghost tv = table_view(table@);
    let mut entries: Vec<(String, SubstitutionColumn)> = Vec::new();
    if table.len() == 0 || table[0].len() == 0 {
        assert(entries_view(entries@) =~= table_entries(tv));
        return entries;
    }
    let blocks_of_rows = row_blocks(table);
    let classes = &table[0];
    let mut i: usize = 1;
    while i < classes.len()
        invariant
            tv == table_view(table@),
            tv.len() > 0,
            table@.len() > 0,
            classes@ == table@[0]@,
            classes@.len() > 0,
            1 <= i <= classes@.len(),
            blocks_of_rows@.len() == table@.len(),
            forall|k: int| 1 <= k < blocks_of_rows@.len() ==> blocks_of_rows@[k] as int == row_block(tv, k),
            entries@.len() == i - 1,
            forall|j: int| 0 <= j < i - 1 ==> (#[trigger] entries_view(entries@)[j]) == table_entries(tv)[j],
        decreases classes@.len() - i,
    {
        let mut blocks: Vec<Option<String>> = Vec::new();
        let mut b: usize = 0;
        while b < BLOCK_COUNT
            invariant
                tv == table_view(table@),
                table@.len() > 0,
                1 <= i < classes@.len(),
                blocks_of_rows@.len() == table@.len(),
                forall|k: int| 1 <= k < blocks_of_rows@.len() ==> blocks_of_rows@[k] as int == row_block(tv, k),
                b <= BLOCK_COUNT,
                blocks@.len() == b,
                forall|j: int| 0 <= j < b ==> opt_view(#[trigger] blocks@[j]) == class_blocks(tv, i as int)[j],
            decreases BLOCK_COUNT - b,
        {
            let mut parts: Vec<String> = Vec::new();
            let mut r: usize = 1;
            while r < table.len()
                invariant
                    tv == table_view(table@),
                    1 <= r <= table@.len(),
                    blocks_of_rows@.len() == table@.len(),
                    forall|k: int| 1 <= k < blocks_of_rows@.len() ==> blocks_of_rows@[k] as int == row_block(tv, k),
                    parts@.map_values(|s: String| s@) == block_parts(tv, i as int, b as int, r as int),
                decreases table@.len() - r,
            {
                let row = &table[r];
                assert(tv[r as int] == row@.map_values(|s: String| s@));
                if blocks_of_rows[r] == b && i < row.len() && !row[i].as_str().is_empty() {
                    let ghost before = parts@;
                    parts.push(row[i].clone());
                    assert(parts@.map_values(|s: String| s@) =~= before.map_values(|s: String| s@).push(row@[i as int]@));
                }
                r = r + 1;
            }
            blocks.push(cell_text(&parts));
            b = b + 1;
        }
        let column = SubstitutionColumn { blocks };
        assert(column@ =~= class_blocks(tv, i as int));
        assert(tv[0][i as int] == classes@[i as int]@);
        let ghost before = entries@;
        entries.push((classes[i].clone(), column));
        assert(entries_view(entries@) =~= entries_view(before).push((classes@[i as int]@, column@)));
        i = i + 1;
    }
    assert(entries_view(entries@) =~= table_entries(tv));
    entries
}

/// Constructs a schedule from tables: the entries of every table, in order,
/// with the given issue date.
pub fn schedule_from_tables(tables: &Vec<Vec<Vec<String>>>, pdf_create_date: i64) -> (r: SubstitutionSchedule)
    ensures
        r.pdf_issue_date == pdf_create_date,
        entries_view(r.entries@) == tables_entries(tables@, tables@.len() as int),
{
    let mut entries: Vec<(String, SubstitutionColumn)> = Vec::new();
    let mut t: usize = 0;
    while t < tables.len()
        invariant
            t <= tables@.len(),
            entries_view(entries@) == tables_entries(tables@, t as int),
        decreases tables@.len() - t,
    {
        let mut more = Self::table_to_substitutions(&tables[t]);
        let ghost before = entries@;
        let ghost added = more@;
        entries.append(&mut more);
        assert(entries_view(entries@) =~= entries_view(before) + entries_view(added));
        t = t + 1;
    }
    SubstitutionSchedule { pdf_issue_date: pdf_create_date, entries }
}

}

} // verus!
