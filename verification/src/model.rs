//! The document model that the page-numbering operations and the master-page
//! serializer read and change: sections, paragraphs, controls, shapes and raw records.
use vstd::prelude::*;

verus! {

/// Which counter an automatic number or a new-number control belongs to.
#[derive(Clone, Copy, Debug, PartialEq, Eq, Structural)]
pub enum AutoNumberType {
    Page,
    Footnote,
    Endnote,
    Picture,
    Table,
    Equation,
}

/// An automatic number (`AutoNumber` control): the counter it shows and its display format
/// (HWP number-format table: 0 = digits, 4 = A, B, C, 5 = a, b, c, ...).
#[derive(Clone, Copy, Debug, PartialEq, Eq, Structural)]
pub struct AutoNumber {
    pub number_type: AutoNumberType,
    pub format: u8,
    pub number: u16,
}

/// A new-number control: restarts the counter `number_type` at `number`.
#[derive(Clone, Copy, Debug, PartialEq, Eq, Structural)]
pub struct NewNumber {
    pub number_type: AutoNumberType,
    pub number: u16,
}

/// Placement attributes shared by every drawing object.
#[derive(Clone, Copy, Debug, PartialEq, Eq, Structural)]
pub struct CommonObjAttr {
    pub vertical_offset: u32,
    pub horizontal_offset: u32,
    pub width: u32,
    pub height: u32,
}

/// Text held inside a drawing object.
#[derive(Debug)]
pub struct TextBox {
    pub paragraphs: Vec<Paragraph>,
}

/// Drawing attributes of a shape that can carry a text box.
#[derive(Debug)]
pub struct DrawingObjAttr {
    pub text_box: Option<TextBox>,
}

/// The kinds of shape that carry drawing attributes.
#[derive(Clone, Copy, Debug, PartialEq, Eq, Structural)]
pub enum DrawingKind {
    Line,
    Rectangle,
    Ellipse,
    Arc,
    Polygon,
    Curve,
    Chart,
    Ole,
}

/// A line, rectangle, ellipse, arc, polygon, curve, chart or OLE object.
#[derive(Debug)]
pub struct DrawingShape {
    pub kind: DrawingKind,
    pub common: CommonObjAttr,
    pub drawing: DrawingObjAttr,
}

/// A group of shapes.
#[derive(Debug)]
pub struct GroupShape {
    pub common: CommonObjAttr,
    pub children: Vec<ShapeObject>,
}

/// A picture.
#[derive(Clone, Copy, Debug, PartialEq, Eq, Structural)]
pub struct Picture {
    pub common: CommonObjAttr,
    pub bin_data_id: u16,
}

/// A drawing object.
#[derive(Debug)]
pub enum ShapeObject {
    Drawing(DrawingShape),
    Group(GroupShape),
    Picture(Picture),
}

/// One cell of a table.
#[derive(Debug)]
pub struct Cell {
    pub paragraphs: Vec<Paragraph>,
}

/// A table.
#[derive(Debug)]
pub struct Table {
    pub cells: Vec<Cell>,
}

/// The pages that a header, footer or master page applies to.
#[derive(Clone, Copy, Debug, PartialEq, Eq, Structural)]
pub enum HeaderFooterApply {
    Both,
    Even,
    Odd,
}

/// A header or a footer.
#[derive(Debug)]
pub struct HeaderFooter {
    pub apply_to: HeaderFooterApply,
    pub paragraphs: Vec<Paragraph>,
}

/// A master page (바탕쪽): page furniture such as the footer text boxes with the page number.
#[derive(Debug)]
pub struct MasterPage {
    pub apply_to: HeaderFooterApply,
    pub is_extension: bool,
    pub overlap: bool,
    pub ext_flags: u16,
    pub text_width: u32,
    pub text_height: u32,
    pub text_ref: u8,
    pub num_ref: u8,
    pub paragraphs: Vec<Paragraph>,
}

impl MasterPage {
    pub open spec fn is_default(&self) -> bool {
        &&& self.apply_to == HeaderFooterApply::Both
        &&& !self.is_extension
        &&& !self.overlap
        &&& self.ext_flags == 0
        &&& self.text_width == 0
        &&& self.text_height == 0
        &&& self.text_ref == 0
        &&& self.num_ref == 0
        &&& self.paragraphs@.len() == 0
    }
}

impl Default for MasterPage {
    fn default() -> (mp: Self)
        ensures
            mp.is_default(),
    {
        MasterPage {
            apply_to: HeaderFooterApply::Both,
            is_extension: false,
            overlap: false,
            ext_flags: 0,
            text_width: 0,
            text_height: 0,
            text_ref: 0,
            num_ref: 0,
            paragraphs: Vec::new(),
        }
    }
}

/// A record of the binary HWP stream kept as it was read: tag, level and payload.
#[derive(Debug)]
pub struct RawRecord {
    pub tag_id: u16,
    pub level: u16,
    pub data: Vec<u8>,
}

/// Section definition: its master pages, and the raw child records that the serializer
/// writes back for them.
#[derive(Debug)]
pub struct SectionDef {
    pub master_pages: Vec<MasterPage>,
    pub extra_child_records: Vec<RawRecord>,
}

/// A control that stands at a position of a paragraph's text.
#[derive(Debug)]
pub enum Control {
    AutoNumber(AutoNumber),
    NewNumber(NewNumber),
    Shape(Box<ShapeObject>),
    Picture(Box<Picture>),
    Table(Box<Table>),
    Header(Box<HeaderFooter>),
    Footer(Box<HeaderFooter>),
    SectionDef(Box<SectionDef>),
    /// A control this model does not look into, by its control id.
    Unknown(u32),
}

/// A paragraph: its text, the raw-stream offset of each character, its controls and the
/// optional control-data record of each control.
#[derive(Debug)]
pub struct Paragraph {
    pub text: String,
    pub char_offsets: Vec<u32>,
    pub controls: Vec<Control>,
    pub ctrl_data_records: Vec<Option<Vec<u8>>>,
}

/// A section of the body.
#[derive(Debug)]
pub struct Section {
    pub section_def: SectionDef,
    pub paragraphs: Vec<Paragraph>,
    /// The section's stream as it was read; dropped when the model changes so that the
    /// serializer writes the model instead.
    pub raw_stream: Option<Vec<u8>>,
}

#[derive(Debug)]
pub struct Document {
    pub sections: Vec<Section>,
}

/// Tag of the control-header record (HWPTAG_BEGIN + 55).
pub const HWPTAG_CTRL_HEADER: u16 = 71;

/// The common placement attributes of a shape.
pub open spec fn shape_common(s: ShapeObject) -> CommonObjAttr {
    match s {
        ShapeObject::Drawing(d) => d.common,
        ShapeObject::Group(g) => g.common,
        ShapeObject::Picture(p) => p.common,
    }
}

/// `s` with its vertical offset set to `v`.
pub open spec fn with_vertical_offset(s: ShapeObject, v: u32) -> ShapeObject {
    match s {
        ShapeObject::Drawing(d) => ShapeObject::Drawing(
            DrawingShape { common: CommonObjAttr { vertical_offset: v, ..d.common }, ..d },
        ),
        ShapeObject::Group(g) => ShapeObject::Group(
            GroupShape { common: CommonObjAttr { vertical_offset: v, ..g.common }, ..g },
        ),
        ShapeObject::Picture(p) => ShapeObject::Picture(
            Picture { common: CommonObjAttr { vertical_offset: v, ..p.common }, ..p },
        ),
    }
}

impl ShapeObject {
    pub fn vertical_offset(&self) -> (v: u32)
        ensures
            v == shape_common(*self).vertical_offset,
    {
        match self {
            ShapeObject::Drawing(d) => d.common.vertical_offset,
            ShapeObject::Group(g) => g.common.vertical_offset,
            ShapeObject::Picture(p) => p.common.vertical_offset,
        }
    }

    pub fn set_vertical_offset(&mut self, v: u32)
        ensures
            *final(self) == with_vertical_offset(*old(self), v),
    {
        match self {
            ShapeObject::Drawing(d) => {
                d.common.vertical_offset = v;
            },
            ShapeObject::Group(g) => {
                g.common.vertical_offset = v;
            },
            ShapeObject::Picture(p) => {
                p.common.vertical_offset = v;
            },
        }
    }
}

} // verus!
