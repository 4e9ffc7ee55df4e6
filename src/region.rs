//! Partitioning a page's objects into one band of objects per table.

use vstd::prelude::*;
use crate::error::ErrorKind;
use crate::geometry::{ObjectView, TableObject};
use crate::order::{int_key, lemma_sort_len, sort_desc_by, sort_ints};
use crate::reader::{views, PageObjects};
use crate::text::{contains_seq, str_contains, str_equals};

verus! {

/// How far a region reaches above the "Block" baseline and below the rule
/// under "15:15".
pub const REGION_PADDING: i128 = 4;

/// The objects of one table region, in page order.
pub struct TableObjects(pub Vec<TableObject>);

impl View for TableObjects {
    type V = Seq<ObjectView>;

    open spec fn view(&self) -> Seq<ObjectView> {
        views(self.0@)
    }
}

/// The object is the text "Block" exactly.
pub open spec fn is_block_label(o: ObjectView) -> bool {
    o matches ObjectView::Text(t) && t.text == "Block"@
}

/// The object is a text holding "15:15".
pub open spec fn is_last_block_time(o: ObjectView) -> bool {
    o matches ObjectView::Text(t) && contains_seq(t.text, "15:15"@)
}

/// The top landmark of each "Block" text, `y + 4`, in page order.
pub open spec fn block_tops(objs: Seq<ObjectView>) -> Seq<i128>
    decreases objs.len(),
{
    if objs.len() == 0 {
        Seq::empty()
    } else if is_block_label(objs.last()) {
        block_tops(objs.drop_last()).push((objs.last().y() + REGION_PADDING) as i128)
    } else {
        block_tops(objs.drop_last())
    }
}

/// The y of each text holding "15:15", in page order.
pub open spec fn time_bottoms(objs: Seq<ObjectView>) -> Seq<i128>
    decreases objs.len(),
{
    if objs.len() == 0 {
        Seq::empty()
    } else if is_last_block_time(objs.last()) {
        time_bottoms(objs.drop_last()).push(objs.last().y() as i128)
    } else {
        time_bottoms(objs.drop_last())
    }
}

/// The top landmarks, ascending.
pub open spec fn top_limits(objs: Seq<ObjectView>) -> Seq<i128> {
    sort_desc_by(block_tops(objs), int_key(false))
}

/// The bottom landmarks, ascending.
pub open spec fn bottom_landmarks(objs: Seq<ObjectView>) -> Seq<i128> {
    sort_desc_by(time_bottoms(objs), int_key(false))
}

/// The y of the closest horizontal rule strictly below `b`.
pub open spec fn rule_below(objs: Seq<ObjectView>, b: i128) -> Option<i64>
    decreases objs.len(),
{
    if objs.len() == 0 {
        None
    } else {
        let rest = rule_below(objs.drop_last(), b);
        match objs.last() {
            ObjectView::Line(l) => if l.is_horizontal() && (l.start.y as int) < (b as int) {
                match rest {
                    Some(m) if m >= l.start.y => Some(m),
                    _ => Some(l.start.y),
                }
            } else {
                rest
            },
            _ => rest,
        }
    }
}

/// The lower bound of the region whose bottom landmark is `b`: the closest
/// rule below it, less the padding.
pub open spec fn region_bottom(objs: Seq<ObjectView>, b: i128) -> i128 {
    (rule_below(objs, b).unwrap() - REGION_PADDING) as i128
}

/// The objects lying strictly between `top` and `bottom`, in page order.
pub open spec fn band(objs: Seq<ObjectView>, top: i128, bottom: i128) -> Seq<ObjectView> {
    objs.filter(|o: ObjectView| o.between_y(top, bottom))
}

/// The table regions of a page: the i-th top landmark paired with the i-th
/// adjusted bottom landmark, both in ascending order; or why there are none.
pub open spec fn table_regions(objs: Seq<ObjectView>) -> Result<Seq<Seq<ObjectView>>, ErrorKind> {
    let t = top_limits(objs);
    let b = bottom_landmarks(objs);
    if block_tops(objs).len() != time_bottoms(objs).len() {
        Err(ErrorKind::RegionCountMismatch)
    } else if exists|k: int| 0 <= k < b.len() && rule_below(objs, #[trigger] b[k]) is None {
        Err(ErrorKind::RegionBoundMissing)
    } else {
        Ok(Seq::new(t.len(), |i: int| band(objs, t[i], region_bottom(objs, b[i]))))
    }
}

/// A page that splits into regions has as many "Block" landmarks as "15:15"
/// landmarks, and one region for each.
pub proof fn lemma_landmarks_pair(objs: Seq<ObjectView>)
    requires
        table_regions(objs) is Ok,
    ensures
        block_tops(objs).len() == time_bottoms(objs).len(),
        table_regions(objs).unwrap().len() == block_tops(objs).len(),
{
    lemma_sort_len(block_tops(objs), int_key(false));
}

fn block_label(o: &TableObject) -> (r: bool)
    ensures
        r == is_block_label(o@),
{
    match o {
        TableObject::Text(t) => str_equals(t.text.as_str(), "Block"),
        TableObject::Line(_) => false,
    }
}

fn last_block_time(o: &TableObject) -> (r: bool)
    ensures
        r == is_last_block_time(o@),
{
    match o {
        TableObject::Text(t) => str_contains(t.text.as_str(), "15:15"),
        TableObject::Line(_) => false,
    }
}

impl PageObjects {
    /// The y of the closest horizontal rule strictly below `b`.
    pub fn rule_below(&self, b: i128) -> (r: Option<i64>)
        ensures
            r == rule_below(self@, b),
    {
        let mut best: Option<i64> = None;
        let mut i: usize = 0;
        while i < self.0.len()
            invariant
                i <= self.0@.len(),
                best == rule_below(self@.subrange(0, i as int), b),
            decreases self.0@.len() - i,
        {
            assert(self@.subrange(0, i + 1).drop_last() =~= self@.subrange(0, i as int));
            assert(self@[i as int] == self.0@[i as int]@);
            match &self.0[i] {
                TableObject::Line(l) => {
                    if l.horizontal() && (l.start.y as i128) < b {
                        best = match best {
                            Some(m) if m >= l.start.y => Some(m),
                            _ => Some(l.start.y),
                        };
                    }
                },
                TableObject::Text(_) => {},
            }
            i = i + 1;
        }
        assert(self@.subrange(0, self@.len() as int) =~= self@);
        best
    }

    /// Splits the page into its table regions. Each "Block" text opens a
    /// region 4 above its baseline; each text holding "15:15" closes one 4
    /// below the closest horizontal rule under it; tops and bottoms pair in
    /// ascending order, and a region takes every object strictly inside it.
    pub fn extract_table_objects(&self) -> (r: Result<Vec<TableObjects>, ErrorKind>)
        ensures
            match (r, table_regions(self@)) {
                (Ok(v), Ok(s)) => v@.len() == s.len()
                    && forall|i: int| 0 <= i < s.len() ==> (#[trigger] v@[i])@ == s[i],
                (Err(a), Err(b)) => a == b,
                _ => false,
            },
            r is Ok ==> block_tops(self@).len() == time_bottoms(self@).len(),
    {
        let ghost objs = self@;
        let mut tops: Vec<i128> = Vec::new();
        let mut bottoms: Vec<i128> = Vec::new();
        let mut i: usize = 0;
        while i < self.0.len()
            invariant
                objs == self@,
                i <= self.0@.len(),
                tops@ == block_tops(objs.subrange(0, i as int)),
                bottoms@ == time_bottoms(objs.subrange(0, i as int)),
            decreases self.0@.len() - i,
        {
            assert(objs.subrange(0, i + 1).drop_last() =~= objs.subrange(0, i as int));
            assert(objs[i as int] == self.0@[i as int]@);
            let o = &self.0[i];
            if block_label(o) {
                tops.push(o.y() as i128 + REGION_PADDING);
            }
            if last_block_time(o) {
                bottoms.push(o.y() as i128);
            }
            i = i + 1;
        }
        assert(objs.subrange(0, objs.len() as int) =~= objs);
        let ghost unsorted_tops = tops@;
        let ghost unsorted_bottoms = bottoms@;
        proof {
            lemma_sort_len(unsorted_tops, int_key(false));
            lemma_sort_len(unsorted_bottoms, int_key(false));
        }
        let tops = sort_ints(tops, false);
        let bottoms = sort_ints(bottoms, false);
        if tops.len() != bottoms.len() {
            return Err(ErrorKind::RegionCountMismatch);
        }

        // extend each bottom landmark to the rule below it
        let mut lower: Vec<i128> = Vec::new();
        let mut k: usize = 0;
        while k < bottoms.len()
            invariant
                objs == self@,
                bottoms@ == bottom_landmarks(objs),
                block_tops(objs).len() == time_bottoms(objs).len(),
                k <= bottoms@.len(),
                lower@.len() == k,
                forall|j: int| 0 <= j < k ==> rule_below(objs, #[trigger] bottoms@[j]) is Some
                    && lower@[j] == region_bottom(objs, bottoms@[j]),
            decreases bottoms@.len() - k,
        {
            match self.rule_below(bottoms[k]) {
                None => {
                    assert(rule_below(objs, bottoms@[k as int]) is None);
                    return Err(ErrorKind::RegionBoundMissing);
                },
                Some(y) => {
                    lower.push(y as i128 - REGION_PADDING);
                },
            }
            k = k + 1;
        }

        let mut regions: Vec<TableObjects> = Vec::new();
        let mut k: usize = 0;
        while k < tops.len()
            invariant
                objs == self@,
                tops@ == top_limits(objs),
                bottoms@ == bottom_landmarks(objs),
                tops@.len() == bottoms@.len(),
                lower@.len() == bottoms@.len(),
                forall|j: int| 0 <= j < lower@.len() ==> lower@[j] == region_bottom(objs, #[trigger] bottoms@[j]),
                k <= tops@.len(),
                regions@.len() == k,
                forall|j: int| 0 <= j < k ==> (#[trigger] regions@[j])@ == band(objs, tops@[j], lower@[j]),
            decreases tops@.len() - k,
        {
            let mut region: Vec<TableObject> = Vec::new();
            let mut i: usize = 0;
            while i < self.0.len()
                invariant
                    objs == self@,
                    i <= self.0@.len(),
                    k < tops@.len(),
                    k < lower@.len(),
                    views(region@) == band(objs.subrange(0, i as int), tops@[k as int], lower@[k as int]),
                decreases self.0@.len() - i,
            {
                proof {
                    assert(objs.subrange(0, i + 1) =~= objs.subrange(0, i as int).push(objs[i as int]));
                    objs.subrange(0, i as int).lemma_filter_push(objs[i as int],
                        |o: ObjectView| o.between_y(tops@[k as int], lower@[k as int]));
                }
                assert(objs[i as int] == self.0@[i as int]@);
                if self.0[i].between_y(tops[k], lower[k]) {
                    let ghost before = region@;
                    region.push(self.0[i].duplicate());
                    assert(views(region@) =~= views(before).push(objs[i as int]));
                }
                i = i + 1;
            }
            assert(objs.subrange(0, objs.len() as int) =~= objs);
            regions.push(TableObjects(region));
            k = k + 1;
        }
        let ghost s = table_regions(objs).unwrap();
        assert(!(exists|k: int| 0 <= k < bottoms@.len() && rule_below(objs, #[trigger] bottoms@[k]) is None));
        assert forall|i: int| 0 <= i < s.len() implies (#[trigger] regions@[i])@ == s[i] by {
            assert(lower@[i] == region_bottom(objs, bottoms@[i]));
        }
        Ok(regions)
    }
}

} // verus!
