//! Page objects: points, straight segments and positioned text.

use vstd::prelude::*;

verus! {

/// A point of PDF user space; `y` grows upwards.
#[derive(Clone, Copy, Debug, PartialEq, Eq, Structural)]
pub struct Point {
    pub x: i64,
    pub y: i64,
}

/// A straight segment from `start` to `end`.
#[derive(Clone, Copy, Debug, PartialEq, Eq, Structural)]
pub struct Line {
    pub start: Point,
    pub end: Point,
}

impl Line {
    /// The segment runs along the x axis.
    pub open spec fn is_horizontal(&self) -> bool {
        self.start.y == self.end.y
    }

    /// The segment runs along the y axis.
    pub open spec fn is_vertical(&self) -> bool {
        self.start.x == self.end.x
    }

    /// Whether the segment has no vertical extent.
    pub fn horizontal(&self) -> (r: bool)
        ensures
            r == self.is_horizontal(),
    {
        self.start.y == self.end.y
    }
}

/// A run of decoded glyphs whose baseline origin is `position`.
#[derive(Clone, Debug)]
pub struct Text {
    pub text: String,
    pub position: Point,
}

/// What a text item is: its characters and its position.
pub struct TextView {
    pub text: Seq<char>,
    pub position: Point,
}

impl View for Text {
    type V = TextView;

    open spec fn view(&self) -> TextView {
        TextView { text: self.text@, position: self.position }
    }
}

impl Text {
    /// A copy of the item.
    pub fn duplicate(&self) -> (r: Text)
        ensures
            r@ == self@,
    {
        Text { text: self.text.clone(), position: self.position }
    }

    /// Whether the item lies strictly between two x coordinates.
    pub open spec fn spec_between_x(&self, limit_start: i64, limit_end: i64) -> bool {
        limit_start < self.position.x < limit_end
    }

    /// Whether the item lies strictly between two x coordinates.
    pub fn between_x(&self, limit_start: i64, limit_end: i64) -> (r: bool)
        ensures
            r == self.spec_between_x(limit_start, limit_end),
    {
        self.position.x > limit_start && self.position.x < limit_end
    }
}

/// One object drawn on a page.
#[derive(Clone, Debug)]
pub enum TableObject {
    Line(Line),
    Text(Text),
}

/// What a page object is, with the text of a text item as characters.
pub enum ObjectView {
    Line(Line),
    Text(TextView),
}

impl View for TableObject {
    type V = ObjectView;

    open spec fn view(&self) -> ObjectView {
        match self {
            TableObject::Line(l) => ObjectView::Line(*l),
            TableObject::Text(t) => ObjectView::Text(t@),
        }
    }
}

/// `v` lies strictly between `bottom` and `top`.
pub open spec fn strictly_between(v: i64, top: i128, bottom: i128) -> bool {
    (v as int) < (top as int) && (v as int) > (bottom as int)
}

impl ObjectView {
    /// Every y coordinate of the object lies strictly between the bounds.
    pub open spec fn between_y(self, top: i128, bottom: i128) -> bool {
        match self {
            ObjectView::Text(t) => strictly_between(t.position.y, top, bottom),
            ObjectView::Line(l) => strictly_between(l.start.y, top, bottom)
                && strictly_between(l.end.y, top, bottom),
        }
    }

    /// The object crosses the vertical border at x coordinate `border`: a
    /// horizontal line whose extent holds it (ends included), or a text item
    /// whose y equals it.
    pub open spec fn intersects_x_border(self, border: i64) -> bool {
        match self {
            ObjectView::Line(l) => l.is_horizontal() && l.start.x <= border <= l.end.x,
            ObjectView::Text(t) => t.position.y == border,
        }
    }

    /// The object is a line that is not horizontal.
    pub open spec fn is_slanted_or_vertical(self) -> bool {
        self matches ObjectView::Line(l) && !l.is_horizontal()
    }

    /// The y at which the object sorts: a text's baseline, a line's start.
    pub open spec fn y(self) -> i64 {
        match self {
            ObjectView::Text(t) => t.position.y,
            ObjectView::Line(l) => l.start.y,
        }
    }
}

impl TableObject {
    /// A copy of the object.
    pub fn duplicate(&self) -> (r: TableObject)
        ensures
            r@ == self@,
    {
        match self {
            TableObject::Line(l) => TableObject::Line(*l),
            TableObject::Text(t) => TableObject::Text(t.duplicate()),
        }
    }

    /// Whether every y coordinate of the object lies strictly between the bounds.
    pub fn between_y(&self, top: i128, bottom: i128) -> (r: bool)
        ensures
            r == self@.between_y(top, bottom),
    {
        match self {
            TableObject::Text(t) => (t.position.y as i128) < top && (t.position.y as i128) > bottom,
            TableObject::Line(l) => (l.start.y as i128) < top && (l.start.y as i128) > bottom
                && (l.end.y as i128) < top && (l.end.y as i128) > bottom,
        }
    }

    /// Whether the object crosses the vertical border at `border`.
    pub fn intersects_x_border(&self, border: i64) -> (r: bool)
        ensures
            r == self@.intersects_x_border(border),
    {
        match self {
            TableObject::Line(l) => l.horizontal() && border >= l.start.x && border <= l.end.x,
            TableObject::Text(t) => t.position.y == border,
        }
    }

    /// The y at which the object sorts.
    pub fn y(&self) -> (r: i64)
        ensures
            r == self@.y(),
    {
        match self {
            TableObject::Text(t) => t.position.y,
            TableObject::Line(l) => l.start.y,
        }
    }

    /// Whether the object is a text item.
    pub fn is_text(&self) -> (r: bool)
        ensures
            r == (self@ is Text),
    {
        match self {
            TableObject::Text(_) => true,
            TableObject::Line(_) => false,
        }
    }

    /// Whether the object is a line.
    pub fn is_line(&self) -> (r: bool)
        ensures
            r == (self@ is Line),
    {
        match self {
            TableObject::Text(_) => false,
            TableObject::Line(_) => true,
        }
    }

    /// Whether two objects are the same drawing: equal coordinates, and equal
    /// characters for text items.
    pub fn same_as(&self, other: &TableObject) -> (r: bool)
        ensures
            r == (self@ == other@),
    {
        match (self, other) {
            (TableObject::Line(a), TableObject::Line(b)) => *a == *b,
            (TableObject::Text(a), TableObject::Text(b)) => {
                let r = a.position == b.position && a.text == b.text;
                proof {
                    if r {
                        assert(a@ == b@);
                    }
                }
                r
            },
            _ => false,
        }
    }
}

} // verus!
