//! Properties that hold of every input: determinism of the extraction, the
//! exclusiveness of disjoint columns, and the open or closed bounds of the
//! geometric tests.

use vstd::prelude::*;
use crate::column::{column_bag, crossing, headers, is_header, max_end_x, min_start_x, texts_within};
use crate::date::issue_date;
use crate::extractor::{document_entries, document_tables, HbsTableExtractor};
use crate::geometry::{Line, ObjectView};
use crate::region::band;

verus! {

/// Reading the issue date is a function of the pages: two extractors with
/// the same pages, or one extractor asked twice, give the same date or the
/// same failure.
pub proof fn lemma_extract_date_deterministic(a: &HbsTableExtractor, b: &HbsTableExtractor)
    requires
        a.pages() == b.pages(),
    ensures
        issue_date(a.pages()) == issue_date(b.pages()),
{
}

/// Extraction is a function of the pages: the same pages give structurally
/// equal tables, the same issue date and the same schedule entries.
pub proof fn lemma_extraction_deterministic(a: &HbsTableExtractor, b: &HbsTableExtractor)
    requires
        a.pages() == b.pages(),
    ensures
        document_tables(a.pages()) == document_tables(b.pages()),
        issue_date(a.pages()) == issue_date(b.pages()),
        document_tables(a.pages()) matches Ok(t) ==> document_entries(t) == document_entries(
            document_tables(b.pages()).unwrap(),
        ),
{
}

/// Two columns whose x-extents are disjoint share no text item, unless the
/// text's y equals one of the header x coordinates (such a text is attached
/// by the crossing test, not by the extent).
pub proof fn lemma_disjoint_columns_share_no_text(objs: Seq<ObjectView>, xa: i64, xb: i64, t: ObjectView)
    requires
        column_bag(objs, xa) is Some,
        column_bag(objs, xb) is Some,
        max_end_x(crossing(objs, xa)).unwrap() <= min_start_x(crossing(objs, xb)).unwrap()
            || max_end_x(crossing(objs, xb)).unwrap() <= min_start_x(crossing(objs, xa)).unwrap(),
        t is Text,
        t.y() != xa,
        t.y() != xb,
    ensures
        !(column_bag(objs, xa).unwrap().contains(t) && column_bag(objs, xb).unwrap().contains(t)),
{
    broadcast use vstd::seq_lib::group_filter_ensures;

    if column_bag(objs, xa).unwrap().contains(t) && column_bag(objs, xb).unwrap().contains(t) {
        lemma_in_extent(objs, xa, t);
        lemma_in_extent(objs, xb, t);
    }
}

/// A text in a column's bag whose y is not the header's x lies strictly
/// inside the column's extent.
proof fn lemma_in_extent(objs: Seq<ObjectView>, x: i64, t: ObjectView)
    requires
        column_bag(objs, x) is Some,
        column_bag(objs, x).unwrap().contains(t),
        t is Text,
        t.y() != x,
    ensures
        min_start_x(crossing(objs, x)).unwrap() < t->Text_0.position.x < max_end_x(crossing(objs, x)).unwrap(),
{
    broadcast use vstd::seq_lib::group_filter_ensures;

    let c = crossing(objs, x);
    let s = min_start_x(c).unwrap();
    let e = max_end_x(c).unwrap();
    let w = texts_within(objs, s, e);
    let bag = c + w;
    let i = choose|i: int| 0 <= i < bag.len() && bag[i] == t;
    if i < c.len() {
        assert(c[i].intersects_x_border(x));
    } else {
        assert(w[i - c.len()] == t);
    }
}

/// The header band is open: a text whose baseline lies exactly 2 above or
/// below the "Block" baseline is no header.
pub proof fn lemma_header_band_is_open(objs: Seq<ObjectView>, y: i64, o: ObjectView)
    requires
        o.y() == y + 2 || o.y() == y - 2,
    ensures
        !is_header(o, y),
        !headers(objs, y).contains(o),
{
    broadcast use vstd::seq_lib::group_filter_ensures;

}

/// The crossing test is inclusive: a horizontal line drawn left to right
/// whose start or end x is `x0` crosses the border at `x0`.
pub proof fn lemma_border_ends_inclusive(l: Line, x0: i64)
    requires
        l.is_horizontal(),
        l.start.x <= l.end.x,
        l.start.x == x0 || l.end.x == x0,
    ensures
        ObjectView::Line(l).intersects_x_border(x0),
{
}

/// Region bounds are exclusive: a text whose baseline equals a region's top
/// or bottom bound is not in the region.
pub proof fn lemma_region_bounds_exclusive(objs: Seq<ObjectView>, top: i128, bottom: i128, o: ObjectView)
    requires
        o is Text,
        o.y() as int == top as int || o.y() as int == bottom as int,
    ensures
        !o.between_y(top, bottom),
        !band(objs, top, bottom).contains(o),
{
    broadcast use vstd::seq_lib::group_filter_ensures;

}

} // verus!
