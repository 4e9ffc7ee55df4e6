//! Splitting a column into cells: picking the real row separators among the
//! attached rules and bucketing the texts between them.

use vstd::prelude::*;
use crate::column::TableColumn;
use crate::error::ErrorKind;
use crate::geometry::{ObjectView, TableObject};
use crate::order::{insert_by_key, int_key, lemma_sort_len, sort_desc_by, sort_ints, sort_objects_desc, y_key};
use crate::reader::views;

verus! {

/// The number of row separators of a column: the six cells and the top bound.
pub const SEPARATOR_COUNT: usize = 7;

/// Which of the largest spacings bounds the real separators from below.
pub const SEPARATOR_RANK: usize = 6;

/// The bag without its vertical lines.
pub open spec fn cleaned(bag: Seq<ObjectView>) -> Seq<ObjectView> {
    bag.filter(upright())
}

/// The object is not a vertical line.
pub open spec fn upright() -> spec_fn(ObjectView) -> bool {
    |o: ObjectView| !o.is_slanted_or_vertical()
}

/// The lines of a sequence of objects.
pub open spec fn lines_of(s: Seq<ObjectView>) -> Seq<ObjectView> {
    s.filter(line_kind())
}

/// The object is a line.
pub open spec fn line_kind() -> spec_fn(ObjectView) -> bool {
    |o: ObjectView| o is Line
}

/// The object is a text item.
pub open spec fn text_kind() -> spec_fn(ObjectView) -> bool {
    |o: ObjectView| o is Text
}

/// The text items of a sequence of objects.
pub open spec fn texts_of(s: Seq<ObjectView>) -> Seq<ObjectView> {
    s.filter(text_kind())
}

/// The horizontal rules of a bag, top first.
pub open spec fn sorted_rules(bag: Seq<ObjectView>) -> Seq<ObjectView> {
    sort_desc_by(lines_of(cleaned(bag)), y_key())
}

/// The gap from each rule to the next one below it.
pub open spec fn spacings(d: Seq<ObjectView>) -> Seq<i128> {
    Seq::new((d.len() - 1) as nat, |k: int| (d[k].y() - d[k + 1].y()) as i128)
}

/// The smallest of the six largest spacings.
pub open spec fn separator_spacing(sp: Seq<i128>) -> i128 {
    sort_desc_by(sp, int_key(true))[SEPARATOR_RANK - 1]
}

/// Rule `k` is kept: it is the last one, or its gap to the next is at least
/// `sigma`.
pub open spec fn keeps(d: Seq<ObjectView>, sigma: i128, k: int) -> bool {
    k == d.len() - 1 || d[k].y() - d[k + 1].y() >= sigma
}

/// The kept rules among the first `n`.
pub open spec fn retained_prefix(d: Seq<ObjectView>, sigma: i128, n: nat) -> Seq<ObjectView>
    decreases n,
{
    if n == 0 {
        Seq::empty()
    } else if keeps(d, sigma, n - 1) {
        retained_prefix(d, sigma, (n - 1) as nat).push(d[n - 1])
    } else {
        retained_prefix(d, sigma, (n - 1) as nat)
    }
}

/// The rules of a bag that are real row separators.
pub open spec fn row_separators(bag: Seq<ObjectView>) -> Seq<ObjectView> {
    let d = sorted_rules(bag);
    retained_prefix(d, separator_spacing(spacings(d)), d.len())
}

/// The separators and the texts of a bag, top first; at equal y the
/// separators come first.
pub open spec fn ordered_cells(bag: Seq<ObjectView>) -> Seq<ObjectView> {
    sort_desc_by(row_separators(bag) + texts_of(cleaned(bag)), y_key())
}

/// Walks a top-first sequence: the finished cells, one closed by each line,
/// and the texts met since the last line.
pub open spec fn walk(s: Seq<ObjectView>) -> (Seq<Seq<Seq<char>>>, Seq<Seq<char>>)
    decreases s.len(),
{
    if s.len() == 0 {
        (Seq::empty(), Seq::empty())
    } else {
        let (done, cur) = walk(s.drop_last());
        match s.last() {
            ObjectView::Line(_) => (done.push(cur), Seq::empty()),
            ObjectView::Text(t) => (done, cur.push(t.text)),
        }
    }
}

/// The cells of a column with bag `bag`: the texts above the first separator
/// (the header), then those between each separator and the next, each cell
/// top first; or why there are none.
pub open spec fn column_cells(bag: Seq<ObjectView>) -> Result<Seq<Seq<Seq<char>>>, ErrorKind> {
    if sorted_rules(bag).len() < SEPARATOR_COUNT {
        Err(ErrorKind::CellLineCountWrong)
    } else if row_separators(bag).len() != SEPARATOR_COUNT {
        Err(ErrorKind::CellLineCountWrong)
    } else if ordered_cells(bag)[0] is Line {
        Err(ErrorKind::CellHeaderMissing)
    } else {
        Ok(walk(ordered_cells(bag)).0)
    }
}

/// A single object counts as one line or none.
proof fn lemma_lines_single(a: ObjectView)
    ensures
        lines_of(seq![a]).len() == if a is Line { 1int } else { 0int },
{
    assert(Seq::<ObjectView>::empty().push(a) =~= seq![a]);
    Seq::<ObjectView>::empty().lemma_filter_push(a, line_kind());
    assert(lines_of(Seq::<ObjectView>::empty()) =~= Seq::<ObjectView>::empty()) by {
        reveal(Seq::filter);
    }
}

/// Inserting `x` adds a line exactly when `x` is one.
proof fn lemma_lines_insert(s: Seq<ObjectView>, x: ObjectView)
    ensures
        lines_of(insert_by_key(s, x, y_key())).len() == lines_of(s).len() + if x is Line { 1int } else { 0int },
    decreases s.len(),
{
    broadcast use Seq::filter_distributes_over_add;

    lemma_lines_single(x);
    if s.len() == 0 {
        assert(lines_of(s) =~= Seq::<ObjectView>::empty()) by {
            reveal(Seq::filter);
        }
    } else {
        let t = s.drop_first();
        assert(s =~= seq![s[0]] + t);
        lemma_lines_single(s[0]);
        if y_key()(s[0]) < y_key()(x) {
        } else {
            lemma_lines_insert(t, x);
        }
    }
}

/// Sorting keeps the number of lines.
proof fn lemma_lines_sort(s: Seq<ObjectView>)
    ensures
        lines_of(sort_desc_by(s, y_key())).len() == lines_of(s).len(),
    decreases s.len(),
{
    if s.len() > 0 {
        lemma_lines_sort(s.drop_last());
        lemma_lines_insert(sort_desc_by(s.drop_last(), y_key()), s.last());
        assert(s =~= s.drop_last().push(s.last()));
        s.drop_last().lemma_filter_push(s.last(), line_kind());
    }
}

/// Every element of `s` satisfies `p` exactly when filtering by `p` keeps
/// them all; none does when filtering keeps none.
proof fn lemma_filter_count(s: Seq<ObjectView>, p: spec_fn(ObjectView) -> bool)
    ensures
        (forall|i: int| 0 <= i < s.len() ==> p(#[trigger] s[i])) ==> s.filter(p).len() == s.len(),
        (forall|i: int| 0 <= i < s.len() ==> !p(#[trigger] s[i])) ==> s.filter(p).len() == 0,
    decreases s.len(),
{
    reveal(Seq::filter);
    if s.len() > 0 {
        lemma_filter_count(s.drop_last(), p);
    }
}

/// Each line of a walked sequence closes one cell; before the first line
/// every object is a text of the open cell; a leading text lands in the
/// first cell.
proof fn lemma_walk(s: Seq<ObjectView>)
    ensures
        walk(s).0.len() == lines_of(s).len(),
        walk(s).0.len() == 0 ==> walk(s).1.len() == s.len(),
        s.len() > 0 && s[0] is Text && walk(s).0.len() > 0 ==> walk(s).0[0].len() > 0,
    decreases s.len(),
{
    if s.len() == 0 {
        assert(lines_of(s) =~= Seq::<ObjectView>::empty()) by {
            reveal(Seq::filter);
        }
    } else {
        let t = s.drop_last();
        lemma_walk(t);
        assert(s =~= t.push(s.last()));
        t.lemma_filter_push(s.last(), line_kind());
        if t.len() > 0 {
            assert(t[0] == s[0]);
        }
    }
}

/// The characters of a list of cells.
pub open spec fn cells_view(v: Seq<Vec<String>>) -> Seq<Seq<Seq<char>>> {
    v.map_values(|c: Vec<String>| c@.map_values(|s: String| s@))
}

/// The retained rules of a bag are lines.
proof fn lemma_retained_lines(d: Seq<ObjectView>, sigma: i128, n: nat)
    requires
        n <= d.len(),
        forall|i: int| 0 <= i < d.len() ==> (#[trigger] d[i]) is Line,
    ensures
        forall|i: int| 0 <= i < retained_prefix(d, sigma, n).len()
            ==> (#[trigger] retained_prefix(d, sigma, n)[i]) is Line,
    decreases n,
{
    if n > 0 {
        lemma_retained_lines(d, sigma, (n - 1) as nat);
    }
}

/// With seven separators and a leading text, the walk gives seven cells and
/// the first holds the header.
proof fn lemma_cells_of_ordered(bag: Seq<ObjectView>)
    requires
        row_separators(bag).len() == SEPARATOR_COUNT,
        ordered_cells(bag).len() > 0,
        ordered_cells(bag)[0] is Text,
    ensures
        walk(ordered_cells(bag)).0.len() == SEPARATOR_COUNT,
        walk(ordered_cells(bag)).0[0].len() > 0,
{
    broadcast use vstd::seq_lib::group_filter_ensures;
    broadcast use Seq::filter_distributes_over_add;

    let d = sorted_rules(bag);
    let seps = row_separators(bag);
    let texts = texts_of(cleaned(bag));
    crate::order::lemma_sort_all(lines_of(cleaned(bag)), y_key(), line_kind());
    assert forall|i: int| 0 <= i < d.len() implies (#[trigger] d[i]) is Line by {
        assert(line_kind()(d[i]));
    }
    lemma_retained_lines(d, separator_spacing(spacings(d)), d.len());
    lemma_filter_count(seps, line_kind());
    assert forall|i: int| 0 <= i < texts.len() implies !line_kind()(#[trigger] texts[i]) by {
        assert(text_kind()(texts[i]));
    }
    lemma_filter_count(texts, line_kind());
    lemma_lines_sort(seps + texts);
    lemma_walk(ordered_cells(bag));
}

/// Every column that splits has exactly seven row separators, its cleaned
/// bag holds no vertical line, its ordered objects begin with a text (the
/// header), and it yields seven cells of which the first holds the header.
pub proof fn lemma_split_column_shape(bag: Seq<ObjectView>)
    requires
        column_cells(bag) is Ok,
    ensures
        row_separators(bag).len() == SEPARATOR_COUNT,
        forall|i: int| 0 <= i < cleaned(bag).len() ==> !(#[trigger] cleaned(bag)[i]).is_slanted_or_vertical(),
        ordered_cells(bag)[0] is Text,
        column_cells(bag).unwrap().len() == SEPARATOR_COUNT,
        column_cells(bag).unwrap()[0].len() > 0,
{
    broadcast use vstd::seq_lib::group_filter_ensures;

    assert forall|i: int| 0 <= i < cleaned(bag).len() implies !(#[trigger] cleaned(bag)[i]).is_slanted_or_vertical() by {
        assert(upright()(cleaned(bag)[i]));
    }
    lemma_sort_len(row_separators(bag) + texts_of(cleaned(bag)), y_key());
    lemma_cells_of_ordered(bag);
}

impl TableColumn {
    /// Drops the vertical lines from the bag and splits the column into its
    /// cells.
    pub fn generate_column(&mut self) -> (r: Result<Vec<Vec<String>>, ErrorKind>)
        ensures
            final(self).header@ == old(self).header@,
            final(self).bag() == cleaned(old(self).bag()),
            forall|k: int| 0 <= k < final(self).bag().len()
                ==> !(#[trigger] final(self).bag()[k]).is_slanted_or_vertical(),
            match (r, column_cells(old(self).bag())) {
                (Ok(cells), Ok(c)) => cells_view(cells@) == c && c.len() == SEPARATOR_COUNT
                    && c[0].len() > 0
                    && row_separators(old(self).bag()).len() == SEPARATOR_COUNT
                    && ordered_cells(old(self).bag())[0] is Text,
                (Err(a), Err(b)) => a == b,
                _ => false,
            },
    {
        broadcast use Seq::lemma_filter_push;

        let ghost bag = self.bag();
        // drop the vertical lines, and part lines from texts
        let mut kept: Vec<TableObject> = Vec::new();
        let mut lines: Vec<TableObject> = Vec::new();
        let mut texts: Vec<TableObject> = Vec::new();
        let mut i: usize = 0;
        while i < self.column.len()
            invariant
                i <= self.column@.len(),
                bag == views(self.column@),
                views(kept@) == cleaned(bag.subrange(0, i as int)),
                views(lines@) == lines_of(cleaned(bag.subrange(0, i as int))),
                views(texts@) == texts_of(cleaned(bag.subrange(0, i as int))),
            decreases self.column@.len() - i,
        {
            let o = self.column[i].duplicate();
            let ghost pre = bag.subrange(0, i as int);
            assert(bag.subrange(0, i + 1) =~= pre.push(o@));
            let vertical = match &o {
                TableObject::Line(l) => !l.horizontal(),
                TableObject::Text(_) => false,
            };
            assert(vertical == o@.is_slanted_or_vertical());
            if !vertical {
                proof {
                    pre.lemma_filter_push(o@, upright());
                }
                assert(cleaned(pre.push(o@)) =~= cleaned(pre).push(o@));
                let ghost ks = kept@;
                let ghost ls = lines@;
                let ghost ts = texts@;
                proof {
                    cleaned(pre).lemma_filter_push(o@, line_kind());
                    cleaned(pre).lemma_filter_push(o@, text_kind());
                }
                if o.is_line() {
                    lines.push(o.duplicate());
                    assert(views(lines@) =~= views(ls).push(o@));
                } else {
                    texts.push(o.duplicate());
                    assert(views(texts@) =~= views(ts).push(o@));
                }
                kept.push(o);
                assert(views(kept@) =~= views(ks).push(o@));
            } else {
                proof {
                    pre.lemma_filter_push(o@, upright());
                }
                assert(cleaned(pre.push(o@)) =~= cleaned(pre));
            }
            i = i + 1;
        }
        assert(bag.subrange(0, bag.len() as int) =~= bag);
        self.column = kept;

        let d = sort_objects_desc(&lines);
        proof {
            lemma_sort_len(lines_of(cleaned(bag)), y_key());
        }
        if d.len() < SEPARATOR_COUNT {
            return Err(ErrorKind::CellLineCountWrong);
        }

        // the gap from each rule to the next
        let mut spacing: Vec<i128> = Vec::new();
        let mut k: usize = 0;
        while k + 1 < d.len()
            invariant
                views(d@) == sorted_rules(bag),
                d@.len() >= SEPARATOR_COUNT,
                k < d@.len(),
                spacing@.len() == k,
                forall|j: int| 0 <= j < k ==> spacing@[j] == spacings(views(d@))[j],
            decreases d@.len() - k,
        {
            let gap = d[k].y() as i128 - d[k + 1].y() as i128;
            assert(views(d@)[k as int] == d@[k as int]@);
            assert(views(d@)[k + 1] == d@[k + 1]@);
            spacing.push(gap);
            k = k + 1;
        }
        assert(spacing@ =~= spacings(views(d@)));

        let ranked = sort_ints(spacing.clone(), true);
        proof {
            lemma_sort_len(spacing@, int_key(true));
        }
        let sigma = ranked[SEPARATOR_RANK - 1];

        // keep the rules whose gap reaches sigma, and the last one
        let mut separators: Vec<TableObject> = Vec::new();
        let mut k: usize = 0;
        while k < d.len()
            invariant
                views(d@) == sorted_rules(bag),
                d@.len() >= SEPARATOR_COUNT,
                spacing@ == spacings(views(d@)),
                sigma == separator_spacing(spacings(views(d@))),
                k <= d@.len(),
                views(separators@) == retained_prefix(views(d@), sigma, k as nat),
            decreases d@.len() - k,
        {
            assert(views(d@)[k as int] == d@[k as int]@);
            if k + 1 == d.len() || spacing[k] >= sigma {
                let ghost before = separators@;
                separators.push(d[k].duplicate());
                assert(views(separators@) =~= views(before).push(d@[k as int]@));
            }
            k = k + 1;
        }
        if separators.len() != SEPARATOR_COUNT {
            return Err(ErrorKind::CellLineCountWrong);
        }

        // separators and texts, top first
        let mut combined: Vec<TableObject> = Vec::new();
        let mut k: usize = 0;
        while k < separators.len()
            invariant
                k <= separators@.len(),
                views(combined@) == views(separators@).subrange(0, k as int),
            decreases separators@.len() - k,
        {
            let ghost before = combined@;
            let x = separators[k].duplicate();
            combined.push(x);
            assert(views(combined@) =~= views(before).push(x@));
            assert(views(combined@) =~= views(separators@).subrange(0, k + 1));
            k = k + 1;
        }
        let mut k: usize = 0;
        while k < texts.len()
            invariant
                k <= texts@.len(),
                views(combined@) == views(separators@) + views(texts@).subrange(0, k as int),
            decreases texts@.len() - k,
        {
            let ghost before = combined@;
            let x = texts[k].duplicate();
            combined.push(x);
            assert(views(combined@) =~= views(before).push(x@));
            assert(views(texts@)[k as int] == x@);
            assert(views(combined@) =~= views(separators@) + views(texts@).subrange(0, k + 1));
            k = k + 1;
        }
        assert(views(combined@) =~= views(separators@) + views(texts@));
        let ordered = sort_objects_desc(&combined);
        proof {
            lemma_sort_len(views(combined@), y_key());
        }
        assert(views(ordered@)[0] == ordered@[0]@);
        if ordered[0].is_line() {
            return Err(ErrorKind::CellHeaderMissing);
        }

        // walk top down: each separator closes a cell
        let mut cells: Vec<Vec<String>> = Vec::new();
        let mut current: Vec<String> = Vec::new();
        let mut k: usize = 0;
        while k < ordered.len()
            invariant
                k <= ordered@.len(),
                walk(views(ordered@).subrange(0, k as int)) == (cells_view(cells@), current@.map_values(|s: String| s@)),
            decreases ordered@.len() - k,
        {
            let ghost pre = views(ordered@).subrange(0, k as int);
            assert(views(ordered@).subrange(0, k + 1).drop_last() =~= pre);
            assert(views(ordered@)[k as int] == ordered@[k as int]@);
            match &ordered[k] {
                TableObject::Line(_) => {
                    let ghost before = cells@;
                    let ghost cur = current@;
                    cells.push(current);
                    current = Vec::new();
                    assert(cells_view(cells@) =~= cells_view(before).push(cur.map_values(|s: String| s@)));
                    assert(current@.map_values(|s: String| s@) =~= Seq::<Seq<char>>::empty());
                },
                TableObject::Text(t) => {
                    let ghost cur = current@;
                    current.push(t.text.clone());
                    assert(current@.map_values(|s: String| s@) =~= cur.map_values(|s: String| s@).push(t.text@));
                },
            }
            k = k + 1;
        }
        assert(views(ordered@).subrange(0, ordered@.len() as int) =~= views(ordered@));
        proof {
            lemma_cells_of_ordered(bag);
        }
        Ok(cells)
    }
}

} // verus!
