//! Table cells: text with a colour, an alignment and attributes.

use vstd::prelude::*;

verus! {

#[derive(Clone, Copy, Debug, PartialEq, Eq, Structural)]
pub enum Colour {
    Green,
    DarkYellow,
    Red,
}

#[derive(Clone, Copy, Debug, PartialEq, Eq, Structural)]
pub enum Alignment {
    Left,
    Center,
    Right,
}

#[derive(Clone, Copy, Debug, PartialEq, Eq, Structural)]
pub enum Attribute {
    Bold,
    Dim,
    Italic,
}

/// A table cell: its text, the colour of the text, its alignment and its
/// attributes (none of the last three when absent).
#[derive(Clone, Debug, PartialEq)]
pub struct Cell {
    pub text: String,
    pub colour: Option<Colour>,
    pub alignment: Option<Alignment>,
    pub attributes: Vec<Attribute>,
}

/// The content of a [`Cell`].
pub struct CellView {
    pub text: Seq<char>,
    pub colour: Option<Colour>,
    pub alignment: Option<Alignment>,
    pub attributes: Seq<Attribute>,
}

impl View for Cell {
    type V = CellView;

    open spec fn view(&self) -> CellView {
        CellView {
            text: self.text@,
            colour: self.colour,
            alignment: self.alignment,
            attributes: self.attributes@,
        }
    }
}

pub type Row = Vec<Cell>;

pub open spec fn row_view(row: Seq<Cell>) -> Seq<CellView> {
    row.map_values(|c: Cell| c@)
}

/// A cell with plain text.
pub open spec fn plain(text: Seq<char>) -> CellView {
    CellView { text, colour: None, alignment: None, attributes: Seq::empty() }
}

/// A header cell: centred and bold.
pub open spec fn header_view(name: Seq<char>) -> CellView {
    CellView { text: name, colour: None, alignment: Some(Alignment::Center), attributes: seq![Attribute::Bold] }
}

/// The cell that stands for a missing value: a dim, italic, centred "null".
pub open spec fn null_view() -> CellView {
    CellView {
        text: "null"@,
        colour: None,
        alignment: Some(Alignment::Center),
        attributes: seq![Attribute::Dim, Attribute::Italic],
    }
}

/// A cell with the given text and nothing else.
pub fn plain_cell(text: String) -> (c: Cell)
    ensures
        c@ == plain(text@),
{
    let c = Cell { text, colour: None, alignment: None, attributes: Vec::new() };
    proof { assert(c@.attributes =~= Seq::<Attribute>::empty()); }
    c
}

/// A header cell with the given name.
pub fn header(name: &str) -> (c: Cell)
    ensures
        c@ == header_view(name@),
{
    let mut attributes = Vec::new();
    attributes.push(Attribute::Bold);
    let c = Cell { text: name.to_owned(), colour: None, alignment: Some(Alignment::Center), attributes };
    proof { assert(c@.attributes =~= seq![Attribute::Bold]); }
    c
}

/// The cell for a missing value.
pub fn null_cell() -> (c: Cell)
    ensures
        c@ == null_view(),
{
    let mut attributes = Vec::new();
    attributes.push(Attribute::Dim);
    attributes.push(Attribute::Italic);
    let c = Cell {
        text: "null".to_owned(),
        colour: None,
        alignment: Some(Alignment::Center),
        attributes,
    };
    proof { assert(c@.attributes =~= seq![Attribute::Dim, Attribute::Italic]); }
    c
}

/// The cell with its text in the given colour.
pub fn coloured(cell: Cell, colour: Colour) -> (c: Cell)
    ensures
        c@ == (CellView { colour: Some(colour), ..cell@ }),
{
    Cell { colour: Some(colour), ..cell }
}

/// The cell with the given alignment.
pub fn aligned(cell: Cell, alignment: Alignment) -> (c: Cell)
    ensures
        c@ == (CellView { alignment: Some(alignment), ..cell@ }),
{
    Cell { alignment: Some(alignment), ..cell }
}

} // verus!
