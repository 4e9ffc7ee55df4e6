//! Table columns: finding each column's header, the rules that cross it and
//! the texts inside its horizontal extent.

use vstd::prelude::*;
use crate::error::ErrorKind;
use crate::geometry::{ObjectView, TableObject, Text};
use crate::reader::views;
use crate::region::{is_block_label, TableObjects};

verus! {

/// How far, strictly, a header's baseline may lie from the "Block" baseline.
pub const HEADER_HALF_BAND: i128 = 2;

/// A column of a table: its header and the objects attached to it.
pub struct TableColumn {
    pub header: Text,
    pub column: Vec<TableObject>,
}

/// The y of the first "Block" text.
pub open spec fn header_y(objs: Seq<ObjectView>) -> Option<i64>
    decreases objs.len(),
{
    if objs.len() == 0 {
        None
    } else {
        match header_y(objs.drop_last()) {
            Some(y) => Some(y),
            None => if is_block_label(objs.last()) {
                Some(objs.last().y())
            } else {
                None
            },
        }
    }
}

/// The number of "Block" texts.
pub open spec fn block_count(objs: Seq<ObjectView>) -> nat {
    objs.filter(|o: ObjectView| is_block_label(o)).len()
}

/// The object is a text other than "Block" whose baseline lies strictly
/// within 2 of `y`.
pub open spec fn is_header(o: ObjectView, y: i64) -> bool {
    o is Text && !is_block_label(o) && (y as int) - HEADER_HALF_BAND < (o.y() as int)
        && (o.y() as int) < (y as int) + HEADER_HALF_BAND
}

/// The header texts of a region whose "Block" baseline is `y`, in order.
pub open spec fn headers(objs: Seq<ObjectView>, y: i64) -> Seq<ObjectView> {
    objs.filter(|o: ObjectView| is_header(o, y))
}

/// The x of a text item, or the start x of a line.
pub open spec fn x_of(o: ObjectView) -> i64 {
    match o {
        ObjectView::Text(t) => t.position.x,
        ObjectView::Line(l) => l.start.x,
    }
}

/// The objects that cross the vertical border at `x`, in order.
pub open spec fn crossing(objs: Seq<ObjectView>, x: i64) -> Seq<ObjectView> {
    objs.filter(|o: ObjectView| o.intersects_x_border(x))
}

/// The least start x of the lines of `s`.
pub open spec fn min_start_x(s: Seq<ObjectView>) -> Option<i64>
    decreases s.len(),
{
    if s.len() == 0 {
        None
    } else {
        let rest = min_start_x(s.drop_last());
        match s.last() {
            ObjectView::Line(l) => match rest {
                Some(m) if m <= l.start.x => Some(m),
                _ => Some(l.start.x),
            },
            _ => rest,
        }
    }
}

/// The greatest end x of the lines of `s`.
pub open spec fn max_end_x(s: Seq<ObjectView>) -> Option<i64>
    decreases s.len(),
{
    if s.len() == 0 {
        None
    } else {
        let rest = max_end_x(s.drop_last());
        match s.last() {
            ObjectView::Line(l) => match rest {
                Some(m) if m >= l.end.x => Some(m),
                _ => Some(l.end.x),
            },
            _ => rest,
        }
    }
}

/// The text items lying strictly between `start` and `end` on the x axis.
pub open spec fn texts_within(objs: Seq<ObjectView>, start: i64, end: i64) -> Seq<ObjectView> {
    objs.filter(|o: ObjectView| o matches ObjectView::Text(t) && start < t.position.x < end)
}

/// The bag of the column whose header stands at `x`: the objects crossing
/// `x`, then the texts inside the extent of those lines.
pub open spec fn column_bag(objs: Seq<ObjectView>, x: i64) -> Option<Seq<ObjectView>> {
    let c = crossing(objs, x);
    match (min_start_x(c), max_end_x(c)) {
        (Some(s), Some(e)) => Some(c + texts_within(objs, s, e)),
        _ => None,
    }
}

/// The columns of a region, each its header and its bag; or why there are
/// none. The region must hold exactly one "Block" text.
pub open spec fn table_columns(objs: Seq<ObjectView>) -> Result<Seq<(ObjectView, Seq<ObjectView>)>, ErrorKind> {
    match header_y(objs) {
        None => Err(ErrorKind::RegionHeaderMissing),
        Some(_) if block_count(objs) != 1 => Err(ErrorKind::RegionHeaderMissing),
        Some(y) => {
            let hs = headers(objs, y);
            if exists|k: int| 0 <= k < hs.len() && column_bag(objs, x_of(#[trigger] hs[k])) is None {
                Err(ErrorKind::ColumnEmpty)
            } else {
                Ok(Seq::new(hs.len(), |k: int| (hs[k], column_bag(objs, x_of(hs[k])).unwrap())))
            }
        },
    }
}

impl TableColumn {
    /// The views of the attached objects.
    pub open spec fn bag(&self) -> Seq<ObjectView> {
        views(self.column@)
    }

    /// The least start x of the attached lines.
    pub fn start(&self) -> (r: Option<i64>)
        ensures
            r == min_start_x(self.bag()),
    {
        let mut best: Option<i64> = None;
        let mut i: usize = 0;
        while i < self.column.len()
            invariant
                i <= self.column@.len(),
                best == min_start_x(self.bag().subrange(0, i as int)),
            decreases self.column@.len() - i,
        {
            assert(self.bag().subrange(0, i + 1).drop_last() =~= self.bag().subrange(0, i as int));
            assert(self.bag()[i as int] == self.column@[i as int]@);
            if let TableObject::Line(l) = &self.column[i] {
                best = match best {
                    Some(m) if m <= l.start.x => Some(m),
                    _ => Some(l.start.x),
                };
            }
            i = i + 1;
        }
        assert(self.bag().subrange(0, self.bag().len() as int) =~= self.bag());
        best
    }

    /// The greatest end x of the attached lines.
    pub fn end(&self) -> (r: Option<i64>)
        ensures
            r == max_end_x(self.bag()),
    {
        let mut best: Option<i64> = None;
        let mut i: usize = 0;
        while i < self.column.len()
            invariant
                i <= self.column@.len(),
                best == max_end_x(self.bag().subrange(0, i as int)),
            decreases self.column@.len() - i,
        {
            assert(self.bag().subrange(0, i + 1).drop_last() =~= self.bag().subrange(0, i as int));
            assert(self.bag()[i as int] == self.column@[i as int]@);
            if let TableObject::Line(l) = &self.column[i] {
                best = match best {
                    Some(m) if m >= l.end.x => Some(m),
                    _ => Some(l.end.x),
                };
            }
            i = i + 1;
        }
        assert(self.bag().subrange(0, self.bag().len() as int) =~= self.bag());
        best
    }
}

impl TableObjects {
    /// The y of the first "Block" text.
    pub fn header_y(&self) -> (r: Option<i64>)
        ensures
            r == header_y(self@),
    {
        let mut i: usize = 0;
        while i < self.0.len()
            invariant
                i <= self.0@.len(),
                header_y(self@.subrange(0, i as int)) is None,
            decreases self.0@.len() - i,
        {
            assert(self@.subrange(0, i + 1).drop_last() =~= self@.subrange(0, i as int));
            assert(self@[i as int] == self.0@[i as int]@);
            let o = &self.0[i];
            if let TableObject::Text(t) = o {
                if crate::text::str_equals(t.text.as_str(), "Block") {
                    proof {
                        lemma_first_stays(self@, i + 1);
                    }
                    return Some(t.position.y);
                }
            }
            i = i + 1;
        }
        assert(self@.subrange(0, self@.len() as int) =~= self@);
        None
    }

    /// The number of "Block" texts in the region.
    pub fn block_count(&self) -> (r: usize)
        ensures
            r == block_count(self@),
    {
        let mut n: usize = 0;
        let mut i: usize = 0;
        while i < self.0.len()
            invariant
                i <= self.0@.len(),
                n <= i,
                n == block_count(self@.subrange(0, i as int)),
            decreases self.0@.len() - i,
        {
            proof {
                assert(self@.subrange(0, i + 1) =~= self@.subrange(0, i as int).push(self@[i as int]));
                self@.subrange(0, i as int).lemma_filter_push(self@[i as int], |o: ObjectView| is_block_label(o));
            }
            assert(self@[i as int] == self.0@[i as int]@);
            if let TableObject::Text(t) = &self.0[i] {
                if crate::text::str_equals(t.text.as_str(), "Block") {
                    n = n + 1;
                }
            }
            i = i + 1;
        }
        assert(self@.subrange(0, self@.len() as int) =~= self@);
        n
    }

    /// The column whose header is `header`: the objects that cross its x,
    /// then the texts inside the extent of those lines; `None` where no line
    /// crosses it.
    pub fn column_for(&self, header: &Text) -> (r: Option<TableColumn>)
        ensures
            match (r, column_bag(self@, header.position.x)) {
                (Some(c), Some(b)) => c.header@ == header@ && c.bag() == b,
                (None, None) => true,
                _ => false,
            },
    {
        let x = header.position.x;
        let mut column = TableColumn { header: header.duplicate(), column: Vec::new() };
        let mut i: usize = 0;
        while i < self.0.len()
            invariant
                i <= self.0@.len(),
                column.header@ == header@,
                x == header.position.x,
                column.bag() == crossing(self@.subrange(0, i as int), x),
            decreases self.0@.len() - i,
        {
            proof {
                assert(self@.subrange(0, i + 1) =~= self@.subrange(0, i as int).push(self@[i as int]));
                self@.subrange(0, i as int).lemma_filter_push(self@[i as int],
                    |o: ObjectView| o.intersects_x_border(x));
            }
            assert(self@[i as int] == self.0@[i as int]@);
            if self.0[i].intersects_x_border(x) {
                let ghost before = column.column@;
                column.column.push(self.0[i].duplicate());
                assert(column.bag() =~= views(before).push(self@[i as int]));
            }
            i = i + 1;
        }
        assert(self@.subrange(0, self@.len() as int) =~= self@);
        let ghost c = column.bag();
        let (start, end) = match (column.start(), column.end()) {
            (Some(s), Some(e)) => (s, e),
            _ => {
                return None;
            },
        };
        let mut i: usize = 0;
        while i < self.0.len()
            invariant
                i <= self.0@.len(),
                column.header@ == header@,
                column.bag() == c + texts_within(self@.subrange(0, i as int), start, end),
            decreases self.0@.len() - i,
        {
            proof {
                assert(self@.subrange(0, i + 1) =~= self@.subrange(0, i as int).push(self@[i as int]));
                self@.subrange(0, i as int).lemma_filter_push(self@[i as int],
                    |o: ObjectView| o matches ObjectView::Text(t) && start < t.position.x < end);
            }
            assert(self@[i as int] == self.0@[i as int]@);
            if let TableObject::Text(t) = &self.0[i] {
                if t.between_x(start, end) {
                    let ghost before = column.column@;
                    column.column.push(TableObject::Text(t.duplicate()));
                    assert(column.bag() =~= views(before).push(self@[i as int]));
                }
            }
            i = i + 1;
        }
        assert(self@.subrange(0, self@.len() as int) =~= self@);
        Some(column)
    }

    /// Finds the columns of the region: one for each text other than "Block"
    /// on the "Block" baseline (within 2, exclusive), in region order. The
    /// region must hold exactly one "Block" text.
    pub fn extract_columns(&self) -> (r: Result<Vec<TableColumn>, ErrorKind>)
        ensures
            match (r, table_columns(self@)) {
                (Ok(v), Ok(s)) => v@.len() == s.len() && forall|k: int| 0 <= k < s.len()
                    ==> ObjectView::Text((#[trigger] v@[k]).header@) == s[k].0 && v@[k].bag() == s[k].1,
                (Err(a), Err(b)) => a == b,
                _ => false,
            },
    {
        let y = match self.header_y() {
            Some(y) => y,
            None => {
                return Err(ErrorKind::RegionHeaderMissing);
            },
        };
        if self.block_count() != 1 {
            return Err(ErrorKind::RegionHeaderMissing);
        }
        let ghost hs = headers(self@, y);
        let mut columns: Vec<TableColumn> = Vec::new();
        let ghost mut seen: Seq<ObjectView> = Seq::empty();
        let mut i: usize = 0;
        while i < self.0.len()
            invariant
                i <= self.0@.len(),
                hs == headers(self@, y),
                header_y(self@) == Some(y),
                block_count(self@) == 1,
                seen == headers(self@.subrange(0, i as int), y),
                columns@.len() == seen.len(),
                forall|k: int| 0 <= k < seen.len() ==> ObjectView::Text((#[trigger] columns@[k]).header@) == seen[k]
                    && column_bag(self@, x_of(seen[k])) == Some(columns@[k].bag()),
            decreases self.0@.len() - i,
        {
            proof {
                assert(self@.subrange(0, i + 1) =~= self@.subrange(0, i as int).push(self@[i as int]));
                self@.subrange(0, i as int).lemma_filter_push(self@[i as int], |o: ObjectView| is_header(o, y));
            }
            assert(self@[i as int] == self.0@[i as int]@);
            if let TableObject::Text(t) = &self.0[i] {
                let near = (y as i128) - HEADER_HALF_BAND < (t.position.y as i128)
                    && (t.position.y as i128) < (y as i128) + HEADER_HALF_BAND;
                if near && !crate::text::str_equals(t.text.as_str(), "Block") {
                    match self.column_for(t) {
                        Some(c) => {
                            columns.push(c);
                            proof {
                                seen = seen.push(self@[i as int]);
                            }
                        },
                        None => {
                            proof {
                                lemma_header_prefix(self@, y, i + 1);
                                assert(hs[seen.len() as int] == self@[i as int]);
                            }
                            return Err(ErrorKind::ColumnEmpty);
                        },
                    }
                }
            }
            i = i + 1;
        }
        assert(self@.subrange(0, self@.len() as int) =~= self@);
        assert forall|k: int| 0 <= k < hs.len() implies column_bag(self@, x_of(#[trigger] hs[k])) is Some by {
            assert(ObjectView::Text(columns@[k].header@) == seen[k]);
        }
        proof {
            let s = table_columns(self@).unwrap();
            assert forall|k: int| 0 <= k < s.len() implies
                ObjectView::Text((#[trigger] columns@[k]).header@) == s[k].0 && columns@[k].bag() == s[k].1 by {
                assert(ObjectView::Text(columns@[k].header@) == seen[k]);
            }
        }
        Ok(columns)
    }
}

/// Once a prefix holds a "Block" text, the first one stays the same.
proof fn lemma_first_stays(objs: Seq<ObjectView>, n: int)
    requires
        0 < n <= objs.len(),
        header_y(objs.subrange(0, n - 1)) is None,
        is_block_label(objs[n - 1]),
    ensures
        header_y(objs) == Some(objs[n - 1].y()),
    decreases objs.len() - n,
{
    if n == objs.len() {
        assert(objs.drop_last() =~= objs.subrange(0, n - 1));
    } else {
        assert(objs.drop_last().subrange(0, n - 1) =~= objs.subrange(0, n - 1));
        lemma_first_stays(objs.drop_last(), n);
    }
}

/// The headers of a prefix are a prefix of the headers.
proof fn lemma_header_prefix(objs: Seq<ObjectView>, y: i64, n: int)
    requires
        0 <= n <= objs.len(),
    ensures
        headers(objs.subrange(0, n), y).len() <= headers(objs, y).len(),
        forall|k: int| 0 <= k < headers(objs.subrange(0, n), y).len()
            ==> headers(objs.subrange(0, n), y)[k] == headers(objs, y)[k],
    decreases objs.len() - n,
{
    if n < objs.len() {
        lemma_header_prefix(objs, y, n + 1);
        assert(objs.subrange(0, n + 1) =~= objs.subrange(0, n).push(objs[n]));
        objs.subrange(0, n).lemma_filter_push(objs[n], |o: ObjectView| is_header(o, y));
    } else {
        assert(objs.subrange(0, n) =~= objs);
    }
}

} // verus!
