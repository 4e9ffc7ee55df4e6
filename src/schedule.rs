//! The schedule: for each class, six optional lesson-block substitution texts.

use vstd::prelude::*;
use vstd::string::StringExecFns;
use crate::cells::cells_view;

verus! {

/// The number of lesson blocks in a day.
pub const BLOCK_COUNT: usize = 6;

/// The lines of a cell joined by newlines.
pub open spec fn join_lines(c: Seq<Seq<char>>) -> Seq<char>
    decreases c.len(),
{
    if c.len() == 0 {
        Seq::empty()
    } else if c.len() == 1 {
        c[0]
    } else {
        join_lines(c.drop_last()) + seq!['\n'] + c.last()
    }
}

/// The substitution text of a block: absent for an empty cell, else its
/// lines joined by newlines.
pub open spec fn block_text(c: Seq<Seq<char>>) -> Option<Seq<char>> {
    if c.len() == 0 {
        None
    } else {
        Some(join_lines(c))
    }
}

/// The characters of an optional string.
pub open spec fn opt_view(b: Option<String>) -> Option<Seq<char>> {
    match b {
        Some(s) => Some(s@),
        None => None,
    }
}

/// Block `k` of a column with cells `c`: the text of cell `k + 1`, absent
/// where there is no such cell.
pub open spec fn cell_block(c: Seq<Seq<Seq<char>>>, k: int) -> Option<Seq<char>> {
    if k + 1 < c.len() {
        block_text(c[k + 1])
    } else {
        None
    }
}

/// The class that a column with cells `c` names: the first line of its
/// header cell, empty where there is none.
pub open spec fn cell_class(c: Seq<Seq<Seq<char>>>) -> Seq<char> {
    if c.len() > 0 && c[0].len() > 0 {
        c[0][0]
    } else {
        Seq::empty()
    }
}

/// The substitutions of one class, one slot per lesson block.
#[derive(Clone, Debug)]
pub struct SubstitutionColumn {
    pub blocks: Vec<Option<String>>,
}

impl View for SubstitutionColumn {
    type V = Seq<Option<Seq<char>>>;

    open spec fn view(&self) -> Seq<Option<Seq<char>>> {
        self.blocks@.map_values(|b: Option<String>| opt_view(b))
    }
}

/// Joins the lines of a cell with newlines.
pub fn join_cell(c: &Vec<String>) -> (r: String)
    ensures
        r@ == join_lines(c@.map_values(|s: String| s@)),
{
    let ghost lines = c@.map_values(|s: String| s@);
    let mut r = String::new();
    let mut i: usize = 0;
    while i < c.len()
        invariant
            i <= c@.len(),
            lines == c@.map_values(|s: String| s@),
            r@ == join_lines(lines.subrange(0, i as int)),
        decreases c@.len() - i,
    {
        assert(lines.subrange(0, i + 1).drop_last() =~= lines.subrange(0, i as int));
        if i > 0 {
            proof {
                reveal_strlit("\n");
            }
            r.append("\n");
        }
        r.append(c[i].as_str());
        i = i + 1;
    }
    assert(lines.subrange(0, c@.len() as int) =~= lines);
    r
}

/// The substitution text of a cell.
pub fn cell_text(c: &Vec<String>) -> (r: Option<String>)
    ensures
        opt_view(r) == block_text(c@.map_values(|s: String| s@)),
{
    if c.len() == 0 {
        None
    } else {
        Some(join_cell(c))
    }
}

impl SubstitutionColumn {
    /// The blocks of a column from its cells: cell 0 is the header, cells 1
    /// to 6 are the six lesson blocks; a missing cell is an absent block.
    pub fn from_cells(cells: &Vec<Vec<String>>) -> (r: SubstitutionColumn)
        ensures
            r@ == Seq::new(BLOCK_COUNT as nat, |k: int| cell_block(cells_view(cells@), k)),
    {
        let mut blocks: Vec<Option<String>> = Vec::new();
        let mut k: usize = 0;
        while k < BLOCK_COUNT
            invariant
                k <= BLOCK_COUNT,
                blocks@.len() == k,
                forall|j: int| 0 <= j < k ==> opt_view(#[trigger] blocks@[j])
                    == cell_block(cells_view(cells@), j),
            decreases BLOCK_COUNT - k,
        {
            if k + 1 < cells.len() {
                assert(cells_view(cells@)[k + 1] == cells@[k + 1]@.map_values(|s: String| s@));
                blocks.push(cell_text(&cells[k + 1]));
            } else {
                blocks.push(None);
            }
            k = k + 1;
        }
        let r = SubstitutionColumn { blocks };
        assert(r@ =~= Seq::new(BLOCK_COUNT as nat, |k: int| cell_block(cells_view(cells@), k)));
        r
    }
}

/// The class map of a list of entries: a later entry for a class replaces an
/// earlier one.
pub open spec fn entries_map(s: Seq<(String, SubstitutionColumn)>) -> Map<Seq<char>, Seq<Option<Seq<char>>>>
    decreases s.len(),
{
    if s.len() == 0 {
        Map::empty()
    } else {
        entries_map(s.drop_last()).insert(s.last().0@, s.last().1@)
    }
}

/// The entries of a list, as characters.
pub open spec fn entries_view(s: Seq<(String, SubstitutionColumn)>) -> Seq<(Seq<char>, Seq<Option<Seq<char>>>)> {
    s.map_values(|e: (String, SubstitutionColumn)| (e.0@, e.1@))
}

/// A substitution schedule: the issue date and each class's blocks.
pub struct SubstitutionSchedule {
    /// Midnight UTC of the issue date, in milliseconds since the epoch.
    pub pdf_issue_date: i64,
    /// The entries in the order they were assembled; a later entry for a
    /// class replaces an earlier one.
    pub entries: Vec<(String, SubstitutionColumn)>,
}

impl SubstitutionSchedule {
    /// The schedule as a map from class name to blocks.
    pub open spec fn classes(&self) -> Map<Seq<char>, Seq<Option<Seq<char>>>> {
        entries_map(self.entries@)
    }

    /// The blocks of `class`, if the schedule has them.
    pub fn get(&self, class: &str) -> (r: Option<&SubstitutionColumn>)
        ensures
            match r {
                Some(c) => self.classes().contains_key(class@) && self.classes()[class@] == c@,
                None => !self.classes().contains_key(class@),
            },
    {
        let mut i: usize = self.entries.len();
        assert(self.entries@.subrange(0, i as int) =~= self.entries@);
        while i > 0
            invariant
                i <= self.entries@.len(),
                entries_map(self.entries@).contains_key(class@) == entries_map(self.entries@.subrange(0, i as int)).contains_key(class@),
                entries_map(self.entries@).contains_key(class@) ==> entries_map(self.entries@)[class@] == entries_map(self.entries@.subrange(0, i as int))[class@],
            decreases i,
        {
            assert(self.entries@.subrange(0, i as int).drop_last() =~= self.entries@.subrange(0, i - 1));
            if crate::text::str_equals(self.entries[i - 1].0.as_str(), class) {
                return Some(&self.entries[i - 1].1);
            }
            i = i - 1;
        }
        None
    }
}

} // verus!
