//! A parser that keeps the loaded document beside the objects of its pages.

use vstd::prelude::*;
use crate::date::issue_date;
use crate::error::ErrorKind;
use crate::extractor::{
    document_cells_view, document_tables, pages_date, pages_tables, pages_view, table_cells_view, ColumnCells,
};
use crate::reader::PageObjects;

verus! {

/// The loaded document, carried as it is.
#[verifier::external_type_specification]
#[verifier::external_body]
pub struct ExDocument(lopdf::Document);

/// The tables of every page, one after another.
pub open spec fn all_tables(d: Seq<Seq<Seq<ColumnCells>>>) -> Seq<Seq<ColumnCells>> {
    d.flatten_alt()
}

/// A loaded document and the objects of its pages.
pub struct PdfScheduleParser {
    pub document: lopdf::Document,
    pub pages: Vec<PageObjects>,
}

impl PdfScheduleParser {
    /// The issue date: the first text holding "Datum: ", read after its last
    /// space as "DD.MM.YYYY", at midnight UTC in milliseconds since the epoch.
    pub fn extract_date(&self) -> (r: Result<i64, ErrorKind>)
        ensures
            r == issue_date(pages_view(self.pages@)),
    {
        pages_date(&self.pages)
    }

    /// The tables of all pages one after another: for each table its
    /// columns, for each column its seven cells, each cell its lines.
    pub fn extract_tables(&self) -> (r: Result<Vec<Vec<Vec<Vec<String>>>>, ErrorKind>)
        ensures
            match (r, document_tables(pages_view(self.pages@))) {
                (Ok(v), Ok(s)) => v@.map_values(|t: Vec<Vec<Vec<String>>>| table_cells_view(t@)) == all_tables(s),
                (Err(a), Err(b)) => a == b,
                _ => false,
            },
    {
        let mut doc = match pages_tables(&self.pages) {
            Ok(d) => d,
            Err(e) => {
                return Err(e);
            },
        };
        let ghost dv = document_cells_view(doc@);
        let mut out: Vec<Vec<Vec<Vec<String>>>> = Vec::new();
        let mut p: usize = 0;
        let n = doc.len();
        assert(dv.subrange(0, 0).flatten_alt() =~= Seq::<Seq<ColumnCells>>::empty());
        assert(out@.map_values(|t: Vec<Vec<Vec<String>>>| table_cells_view(t@)) =~= Seq::<Seq<ColumnCells>>::empty());
        while doc.len() > 0
            invariant
                dv.len() == n,
                p + doc@.len() == n,
                forall|j: int| 0 <= j < doc@.len() ==> crate::extractor::page_cells_view((#[trigger] doc@[j])@) == dv[p + j],
                out@.map_values(|t: Vec<Vec<Vec<String>>>| table_cells_view(t@)) == dv.subrange(0, p as int).flatten_alt(),
            decreases doc@.len(),
        {
            let ghost rest = doc@;
            let mut page = doc.remove(0);
            assert forall|j: int| 0 <= j < doc@.len() implies
                crate::extractor::page_cells_view((#[trigger] doc@[j])@) == dv[p + 1 + j] by {
                assert(doc@[j] == rest[j + 1]);
            }
            let ghost pv = crate::extractor::page_cells_view(page@);
            assert(pv == dv[p as int]);
            let ghost base = out@.map_values(|t: Vec<Vec<Vec<String>>>| table_cells_view(t@));
            let m = page.len();
            let mut t: usize = 0;
            assert(pv.subrange(0, 0) =~= Seq::<Seq<ColumnCells>>::empty());
            assert(base + pv.subrange(0, 0) =~= base);
            while page.len() > 0
                invariant
                    pv.len() == m,
                    t + page@.len() == m,
                    forall|j: int| 0 <= j < page@.len() ==> table_cells_view((#[trigger] page@[j])@) == pv[t + j],
                    out@.map_values(|t: Vec<Vec<Vec<String>>>| table_cells_view(t@)) == base + pv.subrange(0, t as int),
                decreases page@.len(),
            {
                let ghost prest = page@;
                let table = page.remove(0);
                assert forall|j: int| 0 <= j < page@.len() implies
                    table_cells_view((#[trigger] page@[j])@) == pv[t + 1 + j] by {
                    assert(page@[j] == prest[j + 1]);
                }
                let ghost before = out@;
                let ghost tv = table_cells_view(table@);
                assert(tv == pv[t as int]);
                out.push(table);
                assert(out@.map_values(|t: Vec<Vec<Vec<String>>>| table_cells_view(t@))
                    =~= before.map_values(|t: Vec<Vec<Vec<String>>>| table_cells_view(t@)).push(tv));
                assert(pv.subrange(0, t + 1) =~= pv.subrange(0, t as int).push(tv));
                t = t + 1;
            }
            assert(pv.subrange(0, m as int) =~= pv);
            assert(dv.subrange(0, p + 1).drop_last() =~= dv.subrange(0, p as int));
            p = p + 1;
        }
        assert(dv.subrange(0, n as int) =~= dv);
        Ok(out)
    }
}

} // verus!
