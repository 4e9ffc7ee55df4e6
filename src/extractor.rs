//! The extractor: pages of objects in, tables, the issue date and the
//! schedule out.

use vstd::prelude::*;
use crate::cells::{cells_view, column_cells};
use crate::column::{table_columns, TableColumn};
use crate::date::{issue_date, pages_date_text, parse_date_token, split_date_token};
use crate::error::ErrorKind;
use crate::geometry::ObjectView;
use crate::reader::{read_operations, Operation, PageObjects};
use crate::region::{table_regions, TableObjects};
use crate::schedule::{cell_block, cell_class, entries_view, SubstitutionColumn, SubstitutionSchedule, BLOCK_COUNT};
use vstd::string::StringExecFns;

verus! {

/// The values of a list of results, or the first failure among them.
pub open spec fn collect<T>(s: Seq<Result<T, ErrorKind>>) -> Result<Seq<T>, ErrorKind>
    decreases s.len(),
{
    if s.len() == 0 {
        Ok(Seq::empty())
    } else {
        match collect(s.drop_last()) {
            Err(e) => Err(e),
            Ok(v) => match s.last() {
                Err(e) => Err(e),
                Ok(x) => Ok(v.push(x)),
            },
        }
    }
}

/// A failure among the first `k` results is the failure of all of them.
pub proof fn lemma_collect_failure<T>(s: Seq<Result<T, ErrorKind>>, k: int)
    requires
        0 <= k <= s.len(),
        collect(s.subrange(0, k)) is Err,
    ensures
        collect(s) == collect(s.subrange(0, k)),
    decreases s.len() - k,
{
    if k == s.len() {
        assert(s.subrange(0, k) =~= s);
    } else {
        assert(s.drop_last().subrange(0, k) =~= s.subrange(0, k));
        lemma_collect_failure(s.drop_last(), k);
    }
}

/// The cells of a column, each cell its lines.
pub type ColumnCells = Seq<Seq<Seq<char>>>;

/// The cells of each column of a region, or the first failure.
pub open spec fn region_table(region: Seq<ObjectView>) -> Result<Seq<ColumnCells>, ErrorKind> {
    match table_columns(region) {
        Err(e) => Err(e),
        Ok(cols) => collect(cols.map_values(|c: (ObjectView, Seq<ObjectView>)| column_cells(c.1))),
    }
}

/// The tables of a page, or the first failure.
pub open spec fn page_tables(objs: Seq<ObjectView>) -> Result<Seq<Seq<ColumnCells>>, ErrorKind> {
    match table_regions(objs) {
        Err(e) => Err(e),
        Ok(rs) => collect(rs.map_values(|r: Seq<ObjectView>| region_table(r))),
    }
}

/// The tables of every page, or the first failure.
pub open spec fn document_tables(pages: Seq<Seq<ObjectView>>) -> Result<Seq<Seq<Seq<ColumnCells>>>, ErrorKind> {
    collect(pages.map_values(|p: Seq<ObjectView>| page_tables(p)))
}

/// The objects of every page.
pub open spec fn pages_view(p: Seq<PageObjects>) -> Seq<Seq<ObjectView>> {
    p.map_values(|pg: PageObjects| pg@)
}

/// The characters of the cells of each column of a table.
pub open spec fn table_cells_view(t: Seq<Vec<Vec<String>>>) -> Seq<ColumnCells> {
    t.map_values(|c: Vec<Vec<String>>| cells_view(c@))
}

/// The characters of the cells of each table of a page.
pub open spec fn page_cells_view(p: Seq<Vec<Vec<Vec<String>>>>) -> Seq<Seq<ColumnCells>> {
    p.map_values(|t: Vec<Vec<Vec<String>>>| table_cells_view(t@))
}

/// The characters of the cells of each page.
pub open spec fn document_cells_view(d: Seq<Vec<Vec<Vec<Vec<String>>>>>) -> Seq<Seq<Seq<ColumnCells>>> {
    d.map_values(|p: Vec<Vec<Vec<Vec<String>>>>| page_cells_view(p@))
}

/// A class name with its six blocks.
pub type Entry = (Seq<char>, Seq<Option<Seq<char>>>);

/// The schedule entry of a column: the header text names the class, cells 1
/// to 6 give the six blocks.
pub open spec fn column_entry(c: ColumnCells) -> Entry {
    (cell_class(c), Seq::new(BLOCK_COUNT as nat, |k: int| cell_block(c, k)))
}

/// The entries of the columns of a table, in order.
pub open spec fn table_entries_of(t: Seq<ColumnCells>) -> Seq<Entry> {
    t.map_values(|c: ColumnCells| column_entry(c))
}

/// The entries of the tables of a page, in order.
pub open spec fn page_entries(p: Seq<Seq<ColumnCells>>) -> Seq<Entry>
    decreases p.len(),
{
    if p.len() == 0 {
        Seq::empty()
    } else {
        page_entries(p.drop_last()) + table_entries_of(p.last())
    }
}

/// The entries of every page, in page, table and column order.
pub open spec fn document_entries(d: Seq<Seq<Seq<ColumnCells>>>) -> Seq<Entry>
    decreases d.len(),
{
    if d.len() == 0 {
        Seq::empty()
    } else {
        document_entries(d.drop_last()) + page_entries(d.last())
    }
}

/// The lines of a cell, each followed by a newline.
pub open spec fn cell_lines(c: Seq<Seq<char>>) -> Seq<char>
    decreases c.len(),
{
    if c.len() == 0 {
        Seq::empty()
    } else {
        cell_lines(c.drop_last()) + c.last() + seq!['\n']
    }
}

/// The cells of a column as texts of newline-terminated lines.
pub open spec fn simple_column(c: ColumnCells) -> Seq<Seq<char>> {
    c.map_values(|cell: Seq<Seq<char>>| cell_lines(cell))
}

/// The columns of a table as texts, in order.
pub open spec fn simple_table(t: Seq<ColumnCells>) -> Seq<Seq<Seq<char>>> {
    t.map_values(|c: ColumnCells| simple_column(c))
}

/// The columns of the tables of a page as texts, in order.
pub open spec fn simple_page(p: Seq<Seq<ColumnCells>>) -> Seq<Seq<Seq<char>>>
    decreases p.len(),
{
    if p.len() == 0 {
        Seq::empty()
    } else {
        simple_page(p.drop_last()) + simple_table(p.last())
    }
}

/// The columns of every table of every page as texts, in order.
pub open spec fn simple_document(d: Seq<Seq<Seq<ColumnCells>>>) -> Seq<Seq<Seq<char>>>
    decreases d.len(),
{
    if d.len() == 0 {
        Seq::empty()
    } else {
        simple_document(d.drop_last()) + simple_page(d.last())
    }
}

/// The schedule entry of a column.
fn entry_of(cells: &Vec<Vec<String>>) -> (r: (String, SubstitutionColumn))
    ensures
        (r.0@, r.1@) == column_entry(cells_view(cells@)),
{
    let class = if cells.len() > 0 && cells[0].len() > 0 {
        assert(cells_view(cells@)[0] == cells@[0]@.map_values(|s: String| s@));
        cells[0][0].clone()
    } else {
        String::new()
    };
    (class, SubstitutionColumn::from_cells(cells))
}

/// The cell's lines, each followed by a newline.
fn cell_lines_text(cell: &Vec<String>) -> (r: String)
    ensures
        r@ == cell_lines(cell@.map_values(|s: String| s@)),
{
    let ghost lines = cell@.map_values(|s: String| s@);
    let mut r = String::new();
    let mut i: usize = 0;
    while i < cell.len()
        invariant
            i <= cell@.len(),
            lines == cell@.map_values(|s: String| s@),
            r@ == cell_lines(lines.subrange(0, i as int)),
        decreases cell@.len() - i,
    {
        assert(lines.subrange(0, i + 1).drop_last() =~= lines.subrange(0, i as int));
        r.append(cell[i].as_str());
        proof {
            reveal_strlit("\n");
        }
        r.append("\n");
        i = i + 1;
    }
    assert(lines.subrange(0, cell@.len() as int) =~= lines);
    r
}

/// A column's cells as texts.
fn simple_column_texts(cells: &Vec<Vec<String>>) -> (r: Vec<String>)
    ensures
        r@.map_values(|s: String| s@) == simple_column(cells_view(cells@)),
{
    let mut r: Vec<String> = Vec::new();
    let mut k: usize = 0;
    while k < cells.len()
        invariant
            k <= cells@.len(),
            r@.map_values(|s: String| s@) == simple_column(cells_view(cells@)).subrange(0, k as int),
        decreases cells@.len() - k,
    {
        let t = cell_lines_text(&cells[k]);
        let ghost before = r@;
        r.push(t);
        assert(cells_view(cells@)[k as int] == cells@[k as int]@.map_values(|s: String| s@));
        assert(simple_column(cells_view(cells@))[k as int] == cell_lines(cells_view(cells@)[k as int]));
        assert(r@.map_values(|s: String| s@) =~= before.map_values(|s: String| s@).push(t@));
        assert(r@.map_values(|s: String| s@) =~= simple_column(cells_view(cells@)).subrange(0, k + 1));
        k = k + 1;
    }
    assert(simple_column(cells_view(cells@)).subrange(0, cells@.len() as int) =~= simple_column(cells_view(cells@)));
    r
}

/// A document read into pages of objects, one per content stream.
pub struct HbsTableExtractor(pub Vec<PageObjects>);

impl HbsTableExtractor {
    /// The objects of each page.
    pub open spec fn pages(&self) -> Seq<Seq<ObjectView>> {
        pages_view(self.0@)
    }

    /// Reads the operators of each content stream into a page; fails with the
    /// first stream's failure.
    pub fn from_operations(streams: &Vec<Vec<Operation>>) -> (r: Result<HbsTableExtractor, ErrorKind>)
        ensures
            match (r, collect(streams@.map_values(|s: Vec<Operation>| read_operations(s@)))) {
                (Ok(x), Ok(v)) => x.pages() == v,
                (Err(a), Err(b)) => a == b,
                _ => false,
            },
    {
        let ghost all = streams@.map_values(|s: Vec<Operation>| read_operations(s@));
        let mut pages: Vec<PageObjects> = Vec::new();
        let mut k: usize = 0;
        assert(all.subrange(0, 0) =~= Seq::<Result<Seq<ObjectView>, ErrorKind>>::empty());
        assert(pages_view(pages@) =~= Seq::<Seq<ObjectView>>::empty());
        while k < streams.len()
            invariant
                k <= streams@.len(),
                all == streams@.map_values(|s: Vec<Operation>| read_operations(s@)),
                collect(all.subrange(0, k as int)) == Ok::<Seq<Seq<ObjectView>>, ErrorKind>(pages_view(pages@)),
            decreases streams@.len() - k,
        {
            assert(all.subrange(0, k + 1).drop_last() =~= all.subrange(0, k as int));
            match PageObjects::from_operations(&streams[k]) {
                Err(e) => {
                    proof {
                        lemma_collect_failure(all, k + 1);
                    }
                    return Err(e);
                },
                Ok(p) => {
                    let ghost before = pages@;
                    pages.push(p);
                    assert(pages_view(pages@) =~= pages_view(before).push(p@));
                },
            }
            k = k + 1;
        }
        assert(all.subrange(0, all.len() as int) =~= all);
        Ok(HbsTableExtractor(pages))
    }

    /// The cells of each column of a region.
    fn region_cells(region: &TableObjects) -> (r: Result<Vec<Vec<Vec<String>>>, ErrorKind>)
        ensures
            match (r, region_table(region@)) {
                (Ok(v), Ok(s)) => table_cells_view(v@) == s,
                (Err(a), Err(b)) => a == b,
                _ => false,
            },
    {
        let mut columns = match region.extract_columns() {
            Ok(c) => c,
            Err(e) => {
                return Err(e);
            },
        };
        let ghost cols = table_columns(region@).unwrap();
        let ghost all = cols.map_values(|c: (ObjectView, Seq<ObjectView>)| column_cells(c.1));
        let n: usize = columns.len();
        let mut out: Vec<Vec<Vec<String>>> = Vec::new();
        let mut k: usize = 0;
        assert(all.subrange(0, 0) =~= Seq::<Result<ColumnCells, ErrorKind>>::empty());
        assert(table_cells_view(out@) =~= Seq::<ColumnCells>::empty());
        while columns.len() > 0
            invariant
                n == cols.len(),
                table_columns(region@) is Ok,
                cols == table_columns(region@).unwrap(),
                all == cols.map_values(|c: (ObjectView, Seq<ObjectView>)| column_cells(c.1)),
                k + columns@.len() == n,
                forall|j: int| 0 <= j < columns@.len() ==> (#[trigger] columns@[j]).bag() == cols[k + j].1,
                collect(all.subrange(0, k as int)) == Ok::<Seq<ColumnCells>, ErrorKind>(table_cells_view(out@)),
            decreases columns@.len(),
        {
            let ghost rest = columns@;
            let mut column: TableColumn = columns.remove(0);
            assert(column.bag() == cols[k as int].1);
            assert forall|j: int| 0 <= j < columns@.len() implies (#[trigger] columns@[j]).bag() == cols[k + 1 + j].1 by {
                assert(columns@[j] == rest[j + 1]);
            }
            assert(all.subrange(0, k + 1).drop_last() =~= all.subrange(0, k as int));
            assert(all[k as int] == column_cells(cols[k as int].1));
            assert(all.subrange(0, k + 1).last() == all[k as int]);
            match column.generate_column() {
                Err(e) => {
                    proof {
                        lemma_collect_failure(all, k + 1);
                    }
                    return Err(e);
                },
                Ok(cells) => {
                    let ghost before = out@;
                    out.push(cells);
                    assert(table_cells_view(out@) =~= table_cells_view(before).push(cells_view(cells@)));
                },
            }
            k = k + 1;
        }
        assert(all.subrange(0, all.len() as int) =~= all);
        Ok(out)
    }

    /// The tables of a page.
    fn page_cells(page: &PageObjects) -> (r: Result<Vec<Vec<Vec<Vec<String>>>>, ErrorKind>)
        ensures
            match (r, page_tables(page@)) {
                (Ok(v), Ok(s)) => page_cells_view(v@) == s,
                (Err(a), Err(b)) => a == b,
                _ => false,
            },
    {
        let regions = match page.extract_table_objects() {
            Ok(r) => r,
            Err(e) => {
                return Err(e);
            },
        };
        let ghost rs = table_regions(page@).unwrap();
        let ghost all = rs.map_values(|r: Seq<ObjectView>| region_table(r));
        let mut out: Vec<Vec<Vec<Vec<String>>>> = Vec::new();
        let mut k: usize = 0;
        assert(all.subrange(0, 0) =~= Seq::<Result<Seq<ColumnCells>, ErrorKind>>::empty());
        assert(page_cells_view(out@) =~= Seq::<Seq<ColumnCells>>::empty());
        while k < regions.len()
            invariant
                regions@.len() == rs.len(),
                table_regions(page@) is Ok,
                rs == table_regions(page@).unwrap(),
                forall|i: int| 0 <= i < rs.len() ==> (#[trigger] regions@[i])@ == rs[i],
                all == rs.map_values(|r: Seq<ObjectView>| region_table(r)),
                k <= regions@.len(),
                collect(all.subrange(0, k as int)) == Ok::<Seq<Seq<ColumnCells>>, ErrorKind>(page_cells_view(out@)),
            decreases regions@.len() - k,
        {
            assert(all.subrange(0, k + 1).drop_last() =~= all.subrange(0, k as int));
            assert(regions@[k as int]@ == rs[k as int]);
            assert(all[k as int] == region_table(rs[k as int]));
            assert(all.subrange(0, k + 1).last() == all[k as int]);
            match Self::region_cells(&regions[k]) {
                Err(e) => {
                    proof {
                        lemma_collect_failure(all, k + 1);
                    }
                    return Err(e);
                },
                Ok(t) => {
                    let ghost before = out@;
                    out.push(t);
                    assert(page_cells_view(out@) =~= page_cells_view(before).push(table_cells_view(t@)));
                },
            }
            k = k + 1;
        }
        assert(all.subrange(0, all.len() as int) =~= all);
        Ok(out)
    }

    /// The tables of every page: for each page its tables, for each table its
    /// columns, for each column its seven cells, each cell its lines top first.
    pub fn extract_tables(&self) -> (r: Result<Vec<Vec<Vec<Vec<Vec<String>>>>>, ErrorKind>)
        ensures
            match (r, document_tables(self.pages())) {
                (Ok(v), Ok(s)) => document_cells_view(v@) == s,
                (Err(a), Err(b)) => a == b,
                _ => false,
            },
    {
        pages_tables(&self.0)
    }

    /// The schedule: the issue date, and for every column of every table, in
    /// page, table and column order, its class and six blocks.
    pub fn schedule(&self) -> (r: Result<SubstitutionSchedule, ErrorKind>)
        ensures
            match (r, document_tables(self.pages()), issue_date(self.pages())) {
                (Ok(s), Ok(t), Ok(d)) => s.pdf_issue_date == d && entries_view(s.entries@) == document_entries(t),
                (Err(e), Err(a), _) => e == a,
                (Err(e), Ok(_), Err(b)) => e == b,
                _ => false,
            },
    {
        let doc = match self.extract_tables() {
            Ok(d) => d,
            Err(e) => {
                return Err(e);
            },
        };
        let ghost dv = document_cells_view(doc@);
        let mut entries: Vec<(String, SubstitutionColumn)> = Vec::new();
        let mut p: usize = 0;
        while p < doc.len()
            invariant
                dv == document_cells_view(doc@),
                p <= doc@.len(),
                entries_view(entries@) == document_entries(dv.subrange(0, p as int)),
            decreases doc@.len() - p,
        {
            let page = &doc[p];
            let ghost pv = page_cells_view(page@);
            assert(dv[p as int] == pv);
            let mut t: usize = 0;
            assert(page_entries(pv.subrange(0, 0)) =~= Seq::<Entry>::empty());
            assert(document_entries(dv.subrange(0, p as int)) + page_entries(pv.subrange(0, 0))
                =~= document_entries(dv.subrange(0, p as int)));
            while t < page.len()
                invariant
                    pv == page_cells_view(page@),
                    t <= page@.len(),
                    entries_view(entries@) == document_entries(dv.subrange(0, p as int)) + page_entries(pv.subrange(0, t as int)),
                decreases page@.len() - t,
            {
                let table = &page[t];
                let ghost tv = table_cells_view(table@);
                assert(pv[t as int] == tv);
                let mut c: usize = 0;
                assert(table_entries_of(tv.subrange(0, 0)) =~= Seq::<Entry>::empty());
                while c < table.len()
                    invariant
                        tv == table_cells_view(table@),
                        c <= table@.len(),
                        entries_view(entries@) == document_entries(dv.subrange(0, p as int))
                            + page_entries(pv.subrange(0, t as int)) + table_entries_of(tv.subrange(0, c as int)),
                    decreases table@.len() - c,
                {
                    let e = entry_of(&table[c]);
                    let ghost before = entries@;
                    entries.push(e);
                    assert(tv[c as int] == cells_view(table@[c as int]@));
                    assert(table_entries_of(tv.subrange(0, c + 1)) =~= table_entries_of(tv.subrange(0, c as int)).push(column_entry(tv[c as int])));
                    assert(entries_view(entries@) =~= entries_view(before).push((e.0@, e.1@)));
                    c = c + 1;
                }
                assert(tv.subrange(0, table@.len() as int) =~= tv);
                assert(pv.subrange(0, t + 1).drop_last() =~= pv.subrange(0, t as int));
                assert(entries_view(entries@) =~= document_entries(dv.subrange(0, p as int)) + page_entries(pv.subrange(0, t + 1)));
                t = t + 1;
            }
            assert(pv.subrange(0, page@.len() as int) =~= pv);
            assert(dv.subrange(0, p + 1).drop_last() =~= dv.subrange(0, p as int));
            p = p + 1;
        }
        assert(dv.subrange(0, doc@.len() as int) =~= dv);
        let date = match self.extract_date() {
            Ok(d) => d,
            Err(e) => {
                return Err(e);
            },
        };
        Ok(SubstitutionSchedule { pdf_issue_date: date, entries })
    }

    /// The columns of every table of every page, in order, each cell's lines
    /// as one text with a newline after each line.
    pub fn extract_tables_simple(&self) -> (r: Result<Vec<Vec<String>>, ErrorKind>)
        ensures
            match (r, document_tables(self.pages())) {
                (Ok(v), Ok(t)) => v@.map_values(|c: Vec<String>| c@.map_values(|s: String| s@)) == simple_document(t),
                (Err(e), Err(a)) => e == a,
                _ => false,
            },
    {
        let doc = match self.extract_tables() {
            Ok(d) => d,
            Err(e) => {
                return Err(e);
            },
        };
        let ghost dv = document_cells_view(doc@);
        let mut out: Vec<Vec<String>> = Vec::new();
        let mut p: usize = 0;
        assert(out@.map_values(|c: Vec<String>| c@.map_values(|s: String| s@)) =~= simple_document(dv.subrange(0, 0)));
        while p < doc.len()
            invariant
                dv == document_cells_view(doc@),
                p <= doc@.len(),
                out@.map_values(|c: Vec<String>| c@.map_values(|s: String| s@)) == simple_document(dv.subrange(0, p as int)),
            decreases doc@.len() - p,
        {
            let page = &doc[p];
            let ghost pv = page_cells_view(page@);
            assert(dv[p as int] == pv);
            let mut t: usize = 0;
            assert(simple_document(dv.subrange(0, p as int)) + simple_page(pv.subrange(0, 0))
                =~= simple_document(dv.subrange(0, p as int)));
            while t < page.len()
                invariant
                    pv == page_cells_view(page@),
                    t <= page@.len(),
                    out@.map_values(|c: Vec<String>| c@.map_values(|s: String| s@))
                        == simple_document(dv.subrange(0, p as int)) + simple_page(pv.subrange(0, t as int)),
                decreases page@.len() - t,
            {
                let table = &page[t];
                let ghost tv = table_cells_view(table@);
                assert(pv[t as int] == tv);
                let mut c: usize = 0;
                assert(simple_table(tv.subrange(0, 0)) =~= Seq::<Seq<Seq<char>>>::empty());
                while c < table.len()
                    invariant
                        tv == table_cells_view(table@),
                        c <= table@.len(),
                        out@.map_values(|c: Vec<String>| c@.map_values(|s: String| s@))
                            == simple_document(dv.subrange(0, p as int)) + simple_page(pv.subrange(0, t as int))
                            + simple_table(tv.subrange(0, c as int)),
                    decreases table@.len() - c,
                {
                    let texts = simple_column_texts(&table[c]);
                    let ghost before = out@;
                    out.push(texts);
                    assert(tv[c as int] == cells_view(table@[c as int]@));
                    assert(simple_table(tv.subrange(0, c + 1)) =~= simple_table(tv.subrange(0, c as int)).push(simple_column(tv[c as int])));
                    assert(out@.map_values(|c: Vec<String>| c@.map_values(|s: String| s@))
                        =~= before.map_values(|c: Vec<String>| c@.map_values(|s: String| s@)).push(texts@.map_values(|s: String| s@)));
                    c = c + 1;
                }
                assert(tv.subrange(0, table@.len() as int) =~= tv);
                assert(pv.subrange(0, t + 1).drop_last() =~= pv.subrange(0, t as int));
                assert(out@.map_values(|c: Vec<String>| c@.map_values(|s: String| s@))
                    =~= simple_document(dv.subrange(0, p as int)) + simple_page(pv.subrange(0, t + 1)));
                t = t + 1;
            }
            assert(pv.subrange(0, page@.len() as int) =~= pv);
            assert(dv.subrange(0, p + 1).drop_last() =~= dv.subrange(0, p as int));
            p = p + 1;
        }
        assert(dv.subrange(0, doc@.len() as int) =~= dv);
        Ok(out)
    }

    /// The issue date: the first text holding "Datum: ", over the pages in
    /// order, read after its last space as "DD.MM.YYYY", at midnight UTC in
    /// milliseconds since the epoch.
    pub fn extract_date(&self) -> (r: Result<i64, ErrorKind>)
        ensures
            r == issue_date(self.pages()),
    {
        pages_date(&self.0)
    }
}

/// The tables of every page.
pub fn pages_tables(pages: &Vec<PageObjects>) -> (r: Result<Vec<Vec<Vec<Vec<Vec<String>>>>>, ErrorKind>)
    ensures
        match (r, document_tables(pages_view(pages@))) {
            (Ok(v), Ok(s)) => document_cells_view(v@) == s,
            (Err(a), Err(b)) => a == b,
            _ => false,
        },
{
    let ghost all = pages_view(pages@).map_values(|p: Seq<ObjectView>| page_tables(p));
    let mut out: Vec<Vec<Vec<Vec<Vec<String>>>>> = Vec::new();
    let mut k: usize = 0;
    assert(all.subrange(0, 0) =~= Seq::<Result<Seq<Seq<ColumnCells>>, ErrorKind>>::empty());
    assert(document_cells_view(out@) =~= Seq::<Seq<Seq<ColumnCells>>>::empty());
    while k < pages.len()
        invariant
            all == pages_view(pages@).map_values(|p: Seq<ObjectView>| page_tables(p)),
            k <= pages@.len(),
            collect(all.subrange(0, k as int)) == Ok::<Seq<Seq<Seq<ColumnCells>>>, ErrorKind>(document_cells_view(out@)),
        decreases pages@.len() - k,
    {
        assert(all.subrange(0, k + 1).drop_last() =~= all.subrange(0, k as int));
        assert(pages_view(pages@)[k as int] == pages@[k as int]@);
        match HbsTableExtractor::page_cells(&pages[k]) {
            Err(e) => {
                proof {
                    lemma_collect_failure(all, k + 1);
                }
                return Err(e);
            },
            Ok(p) => {
                let ghost before = out@;
                out.push(p);
                assert(document_cells_view(out@) =~= document_cells_view(before).push(page_cells_view(p@)));
            },
        }
        k = k + 1;
    }
    assert(all.subrange(0, all.len() as int) =~= all);
    Ok(out)
}


/// The issue date: the first text holding "Datum: ", over the pages in
/// order, read after its last space as "DD.MM.YYYY", at midnight UTC in
/// milliseconds since the epoch.
pub fn pages_date(pages: &Vec<PageObjects>) -> (r: Result<i64, ErrorKind>)
    ensures
        r == issue_date(pages_view(pages@)),
{
    let mut k: usize = 0;
    while k < pages.len()
        invariant
            k <= pages@.len(),
            pages_date_text(pages_view(pages@).subrange(0, k as int)) is None,
        decreases pages@.len() - k,
    {
        assert(pages_view(pages@).subrange(0, k + 1).drop_last() =~= pages_view(pages@).subrange(0, k as int));
        assert(pages_view(pages@)[k as int] == pages@[k as int]@);
        if let Some(text) = pages[k].date_text() {
            proof {
                lemma_first_page_stays(pages_view(pages@), k + 1);
            }
            let token = match split_date_token(text.as_str()) {
                Ok(t) => t,
                Err(e) => {
                    return Err(e);
                },
            };
            return parse_date_token(token);
        }
        k = k + 1;
    }
    assert(pages_view(pages@).subrange(0, pages@.len() as int) =~= pages_view(pages@));
    Err(ErrorKind::DateNotFound)
}

/// Once the pages up to `n` hold a date text, the first one stays the same.
proof fn lemma_first_page_stays(pages: Seq<Seq<ObjectView>>, n: int)
    requires
        0 < n <= pages.len(),
        pages_date_text(pages.subrange(0, n - 1)) is None,
        crate::date::first_date_text(pages[n - 1]) is Some,
    ensures
        pages_date_text(pages) == crate::date::first_date_text(pages[n - 1]),
    decreases pages.len() - n,
{
    assert(pages.subrange(0, n).drop_last() =~= pages.subrange(0, n - 1));
    if n == pages.len() {
        assert(pages.subrange(0, n - 1) =~= pages.drop_last());
    } else {
        assert(pages.drop_last().subrange(0, n - 1) =~= pages.subrange(0, n - 1));
        lemma_first_page_stays(pages.drop_last(), n);
    }
}

} // verus!
