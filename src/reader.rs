//! Reading one content stream's operators into the set of page objects.

use vstd::prelude::*;
use crate::error::ErrorKind;
use crate::geometry::{Line, ObjectView, Point, TableObject, Text, TextView};

verus! {

/// An operand of a content-stream operator, as far as the reader needs it.
#[derive(Clone, Debug)]
pub enum Operand {
    /// A number, truncated toward zero.
    Number(i64),
    /// A byte string.
    Bytes(Vec<u8>),
    /// Any other operand.
    Other,
}

/// One content-stream operator with its operands.
#[derive(Clone, Debug)]
pub struct Operation {
    pub operator: String,
    pub operands: Vec<Operand>,
}

/// The characters that the WinAnsiEncoding code page gives the bytes.
pub uninterp spec fn win_ansi_text(b: Seq<u8>) -> Option<Seq<char>>;

/// Relies on lopdf's `Document::decode_text` under the WinAnsiEncoding code
/// page: the text depends on the bytes alone.
#[verifier::external_body]
fn decode_win_ansi(b: &Vec<u8>) -> (r: Option<String>)
    ensures
        match r {
            Some(s) => win_ansi_text(b@) == Some(s@),
            None => win_ansi_text(b@) is None,
        },
{
    lopdf::Document::decode_text(&lopdf::Encoding::SimpleEncoding(b"WinAnsiEncoding"), b.as_slice()).ok()
}

/// The number at operand `k`.
pub open spec fn number_at(op: Operation, k: int) -> Option<i64> {
    if 0 <= k < op.operands@.len() {
        match op.operands@[k] {
            Operand::Number(n) => Some(n),
            _ => None,
        }
    } else {
        None
    }
}

/// The point whose coordinates are operands `0` and `1`.
pub open spec fn point_of(op: Operation) -> Option<Point> {
    match (number_at(op, 0), number_at(op, 1)) {
        (Some(x), Some(y)) => Some(Point { x, y }),
        _ => None,
    }
}

/// The byte string at operand `0`.
pub open spec fn first_bytes(op: Operation) -> Option<Seq<u8>> {
    if 0 < op.operands@.len() {
        match op.operands@[0] {
            Operand::Bytes(b) => Some(b@),
            _ => None,
        }
    } else {
        None
    }
}

/// The object that the operator at index `i` completes, if any.
pub open spec fn object_at(ops: Seq<Operation>, i: int) -> Result<Option<ObjectView>, ErrorKind> {
    let op = ops[i];
    if op.operator@ == "Tj"@ {
        if i == 0 || ops[i - 1].operator@ != "Td"@ {
            Err(ErrorKind::ParseSequence)
        } else {
            match (point_of(ops[i - 1]), first_bytes(op)) {
                (Some(p), Some(b)) => match win_ansi_text(b) {
                    Some(t) => Ok(Some(ObjectView::Text(TextView { text: t, position: p }))),
                    None => Err(ErrorKind::PdfRead),
                },
                _ => Err(ErrorKind::PdfRead),
            }
        }
    } else if op.operator@ == "l"@ {
        if i == 0 || ops[i - 1].operator@ != "m"@ {
            Err(ErrorKind::ParseSequence)
        } else {
            match (point_of(ops[i - 1]), point_of(op)) {
                (Some(s), Some(e)) => {
                    let l = Line { start: s, end: e };
                    if l.is_horizontal() || l.is_vertical() {
                        Ok(Some(ObjectView::Line(l)))
                    } else {
                        Err(ErrorKind::DiagonalLine)
                    }
                },
                _ => Err(ErrorKind::PdfRead),
            }
        }
    } else {
        Ok(None)
    }
}

/// `s` with `o` added unless it already holds it.
pub open spec fn add_distinct(s: Seq<ObjectView>, o: ObjectView) -> Seq<ObjectView> {
    if s.contains(o) {
        s
    } else {
        s.push(o)
    }
}

/// The distinct objects that the first `n` operators draw, in order of first
/// appearance, or the first failure among them.
pub open spec fn read_prefix(ops: Seq<Operation>, n: nat) -> Result<Seq<ObjectView>, ErrorKind>
    decreases n,
{
    if n == 0 {
        Ok(Seq::empty())
    } else {
        match read_prefix(ops, (n - 1) as nat) {
            Err(e) => Err(e),
            Ok(s) => match object_at(ops, n - 1) {
                Err(e) => Err(e),
                Ok(None) => Ok(s),
                Ok(Some(o)) => Ok(add_distinct(s, o)),
            },
        }
    }
}

/// A failure while reading a prefix is the failure of every longer prefix.
proof fn lemma_failure_persists(ops: Seq<Operation>, n: nat, m: nat)
    requires
        n <= m,
        read_prefix(ops, n) is Err,
    ensures
        read_prefix(ops, m) == read_prefix(ops, n),
    decreases m - n,
{
    if n < m {
        lemma_failure_persists(ops, n, (m - 1) as nat);
    }
}

/// What a content stream draws: its distinct objects, or the failure.
pub open spec fn read_operations(ops: Seq<Operation>) -> Result<Seq<ObjectView>, ErrorKind> {
    read_prefix(ops, ops.len())
}

/// The views of a list of objects.
pub open spec fn views(s: Seq<TableObject>) -> Seq<ObjectView> {
    s.map_values(|o: TableObject| o@)
}

/// The deduplicated objects of one page, in order of first appearance.
pub struct PageObjects(pub Vec<TableObject>);

impl View for PageObjects {
    type V = Seq<ObjectView>;

    open spec fn view(&self) -> Seq<ObjectView> {
        views(self.0@)
    }
}

fn names(op: &Operation, name: &str) -> (r: bool)
    ensures
        r == (op.operator@ == name@),
{
    crate::text::str_equals(op.operator.as_str(), name)
}

fn number_operand(op: &Operation, k: usize) -> (r: Option<i64>)
    ensures
        r == number_at(*op, k as int),
{
    if k < op.operands.len() {
        match &op.operands[k] {
            Operand::Number(n) => Some(*n),
            _ => None,
        }
    } else {
        None
    }
}

fn point_operand(op: &Operation) -> (r: Option<Point>)
    ensures
        r == point_of(*op),
{
    match (number_operand(op, 0), number_operand(op, 1)) {
        (Some(x), Some(y)) => Some(Point { x, y }),
        _ => None,
    }
}

fn object_of(ops: &Vec<Operation>, i: usize) -> (r: Result<Option<TableObject>, ErrorKind>)
    requires
        i < ops@.len(),
    ensures
        match (r, object_at(ops@, i as int)) {
            (Ok(Some(o)), Ok(Some(v))) => o@ == v,
            (Ok(None), Ok(None)) => true,
            (Err(a), Err(b)) => a == b,
            _ => false,
        },
{
    let op = &ops[i];
    if names(op, "Tj") {
        if i == 0 || !names(&ops[i - 1], "Td") {
            return Err(ErrorKind::ParseSequence);
        }
        let position = point_operand(&ops[i - 1]);
        let bytes = if 0 < op.operands.len() {
            match &op.operands[0] {
                Operand::Bytes(b) => Some(b),
                _ => None,
            }
        } else {
            None
        };
        match (position, bytes) {
            (Some(p), Some(b)) => match decode_win_ansi(b) {
                Some(text) => Ok(Some(TableObject::Text(Text { text, position: p }))),
                None => Err(ErrorKind::PdfRead),
            },
            _ => Err(ErrorKind::PdfRead),
        }
    } else if names(op, "l") {
        if i == 0 || !names(&ops[i - 1], "m") {
            return Err(ErrorKind::ParseSequence);
        }
        match (point_operand(&ops[i - 1]), point_operand(op)) {
            (Some(start), Some(end)) => {
                if start.y == end.y || start.x == end.x {
                    Ok(Some(TableObject::Line(Line { start, end })))
                } else {
                    Err(ErrorKind::DiagonalLine)
                }
            },
            _ => Err(ErrorKind::PdfRead),
        }
    } else {
        Ok(None)
    }
}

impl PageObjects {
    /// No two objects of the page are equal.
    pub open spec fn wf(&self) -> bool {
        self@.no_duplicates()
    }

    /// A page without objects.
    pub fn new() -> (r: PageObjects)
        ensures
            r@ == Seq::<ObjectView>::empty(),
            r.wf(),
    {
        PageObjects(Vec::new())
    }

    /// Whether the page already holds an object equal to `o`.
    pub fn contains(&self, o: &TableObject) -> (r: bool)
        ensures
            r == self@.contains(o@),
    {
        let mut i: usize = 0;
        while i < self.0.len()
            invariant
                i <= self.0@.len(),
                forall|k: int| 0 <= k < i ==> self@[k] != o@,
            decreases self.0@.len() - i,
        {
            if self.0[i].same_as(o) {
                assert(self@[i as int] == o@);
                return true;
            }
            i = i + 1;
        }
        false
    }

    /// Adds `o` unless an equal object is already there.
    pub fn insert(&mut self, o: TableObject)
        requires
            old(self).wf(),
        ensures
            final(self)@ == add_distinct(old(self)@, o@),
            final(self).wf(),
    {
        if !self.contains(&o) {
            self.0.push(o);
            assert(self@ =~= add_distinct(old(self)@, o@));
        }
    }

    /// Reads the objects that a content stream draws: each show-text operator
    /// with the text-position operator before it gives a text item, each
    /// line-to with the move-to before it a segment; equal objects collapse.
    pub fn from_operations(ops: &Vec<Operation>) -> (r: Result<PageObjects, ErrorKind>)
        ensures
            match (r, read_operations(ops@)) {
                (Ok(p), Ok(s)) => p@ == s && p.wf(),
                (Err(a), Err(b)) => a == b,
                _ => false,
            },
    {
        let mut page = PageObjects::new();
        let mut i: usize = 0;
        while i < ops.len()
            invariant
                i <= ops@.len(),
                read_prefix(ops@, i as nat) == Ok::<Seq<ObjectView>, ErrorKind>(page@),
                page.wf(),
            decreases ops@.len() - i,
        {
            match object_of(ops, i) {
                Err(e) => {
                    proof {
                        lemma_failure_persists(ops@, (i + 1) as nat, ops@.len());
                    }
                    return Err(e);
                },
                Ok(None) => {},
                Ok(Some(o)) => {
                    page.insert(o);
                },
            }
            i = i + 1;
        }
        Ok(page)
    }
}

} // verus!
