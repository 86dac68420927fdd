//! The document model of an IDF 3.0 file, with a mathematical view of each type.
use crate::number::Decimal;
use vstd::prelude::*;
use vstd::string::StrSliceExecFns;

verus! {

/// Why a document could not be decoded.
#[derive(Clone, Copy, Debug, PartialEq, Eq, Structural)]
pub enum Error {
    /// The first section is not `HEADER`, or there is no section at all.
    MissingHeader,
    /// The version token of the header is not `3.0`.
    UnsupportedVersion,
    /// The file type is not `BOARD_FILE`, `PANEL_FILE` or `LIBRARY_FILE`.
    WrongFileType,
    /// A unit token is neither `MM` nor `THOU`.
    WrongUnit,
    /// A `PLACEMENT` section holds a record without its geometry record.
    MalformedPlacementSection,
    /// A board side is neither `TOP` nor `BOTTOM`.
    WrongSide,
    /// A placement status is not `PLACED`, `UNPLACED`, `MCAD` or `ECAD`.
    WrongStatus,
    /// A record holds fewer tokens than its layout asks for.
    GrammarExpectedPair,
    /// A token of another kind stands where a number is expected.
    GrammarExpectedRule,
    /// The text breaks the token grammar on the given (1-based) line.
    Grammar(usize),
    /// An integer does not fit the type it is read into.
    ParseInt,
    /// A float has more digits, or a larger exponent, than can be held.
    ParseFloat,
}

#[derive(Clone, Copy, Debug, PartialEq, Eq, Structural)]
pub enum Unit {
    /// Millimetres, `MM`.
    SImm,
    /// Thousandths of an inch, `THOU`.
    Mils,
}

#[derive(Clone, Copy, Debug, PartialEq, Eq, Structural)]
pub enum LoopLabel {
    Clockwise,
    CounterClockwise,
}

#[derive(Clone, Copy, Debug, PartialEq, Eq, Structural)]
pub enum BoardSide {
    Top,
    Bottom,
}

#[derive(Clone, Copy, Debug, PartialEq, Eq, Structural)]
pub enum PlacementStatus {
    Placed,
    Unplaced,
    MCad,
    ECad,
}

/// One vertex of a component outline.
#[derive(Clone, Copy, Debug, PartialEq, Eq, Structural)]
pub struct Point {
    pub label: LoopLabel,
    pub x: Decimal,
    pub y: Decimal,
    pub angle: Decimal,
}

#[derive(Clone, Debug, PartialEq)]
pub enum ReferenceDesignator {
    Any(String),
    NoRefDes,
    Board,
}

pub enum DesignatorView {
    Any(Seq<char>),
    NoRefDes,
    Board,
}

impl View for ReferenceDesignator {
    type V = DesignatorView;

    open spec fn view(&self) -> DesignatorView {
        match self {
            ReferenceDesignator::Any(s) => DesignatorView::Any(s@),
            ReferenceDesignator::NoRefDes => DesignatorView::NoRefDes,
            ReferenceDesignator::Board => DesignatorView::Board,
        }
    }
}

/// Whether a designator names a test point: a named one that starts with `TP`.
pub open spec fn names_test_point(d: DesignatorView) -> bool {
    match d {
        DesignatorView::Any(s) => s.len() >= 2 && s[0] == 'T' && s[1] == 'P',
        _ => false,
    }
}

impl ReferenceDesignator {
    /// Whether the designator names a test point (`TP...`); `NOREFDES` and
    /// `BOARD` never do.
    pub fn is_test_point(&self) -> (r: bool)
        ensures
            r == names_test_point(self@),
    {
        match self {
            ReferenceDesignator::Any(d) => {
                let s = d.as_str();
                s.unicode_len() >= 2 && s.get_char(0) == 'T' && s.get_char(1) == 'P'
            },
            ReferenceDesignator::NoRefDes => false,
            ReferenceDesignator::Board => false,
        }
    }
}

/// A value of a record of a section that the decoder does not interpret.
#[derive(Clone, Debug, PartialEq)]
pub enum IdfValue {
    Integer(i64),
    Float(Decimal),
    String(String),
}

pub enum ValueView {
    Integer(i64),
    Float(Decimal),
    String(Seq<char>),
}

impl View for IdfValue {
    type V = ValueView;

    open spec fn view(&self) -> ValueView {
        match self {
            IdfValue::Integer(i) => ValueView::Integer(*i),
            IdfValue::Float(d) => ValueView::Float(*d),
            IdfValue::String(s) => ValueView::String(s@),
        }
    }
}

pub open spec fn values_view(r: Seq<IdfValue>) -> Seq<ValueView> {
    r.map_values(|v: IdfValue| v@)
}

pub open spec fn strings_view(r: Seq<String>) -> Seq<Seq<char>> {
    r.map_values(|s: String| s@)
}

/// A section that the decoder keeps as it stands, e.g. `BOARD_OUTLINE`.
#[derive(Clone, Debug, PartialEq)]
pub struct IdfSection {
    /// e.g. `BOARD_OUTLINE`
    pub name: String,
    /// e.g. `ECAD` in `.BOARD_OUTLINE ECAD`
    pub args: Vec<String>,
    pub records: Vec<Vec<IdfValue>>,
}

pub struct SectionView {
    pub name: Seq<char>,
    pub args: Seq<Seq<char>>,
    pub records: Seq<Seq<ValueView>>,
}

impl View for IdfSection {
    type V = SectionView;

    open spec fn view(&self) -> SectionView {
        SectionView {
            name: self.name@,
            args: strings_view(self.args@),
            records: self.records@.map_values(|r: Vec<IdfValue>| values_view(r@)),
        }
    }
}

#[derive(Clone, Debug, PartialEq)]
pub struct ComponentPlacement {
    pub package_name: String,
    pub part_number: String,
    pub designator: ReferenceDesignator,
    pub x: Decimal,
    pub y: Decimal,
    pub z: Decimal,
    pub rotation: Decimal,
    pub board_side: BoardSide,
    pub placement_status: PlacementStatus,
}

pub struct PlacementView {
    pub package_name: Seq<char>,
    pub part_number: Seq<char>,
    pub designator: DesignatorView,
    pub x: Decimal,
    pub y: Decimal,
    pub z: Decimal,
    pub rotation: Decimal,
    pub board_side: BoardSide,
    pub placement_status: PlacementStatus,
}

impl View for ComponentPlacement {
    type V = PlacementView;

    open spec fn view(&self) -> PlacementView {
        PlacementView {
            package_name: self.package_name@,
            part_number: self.part_number@,
            designator: self.designator@,
            x: self.x,
            y: self.y,
            z: self.z,
            rotation: self.rotation,
            board_side: self.board_side,
            placement_status: self.placement_status,
        }
    }
}

pub open spec fn placements_view(v: Seq<ComponentPlacement>) -> Seq<PlacementView> {
    v.map_values(|c: ComponentPlacement| c@)
}

#[derive(Clone, Debug, PartialEq)]
pub struct ComponentDefinition {
    pub geometry_name: String,
    pub part_number: String,
    pub units: Unit,
    pub height: Decimal,
    pub points: Vec<Point>,
}

pub struct DefinitionView {
    pub geometry_name: Seq<char>,
    pub part_number: Seq<char>,
    pub units: Unit,
    pub height: Decimal,
    pub points: Seq<Point>,
}

impl View for ComponentDefinition {
    type V = DefinitionView;

    open spec fn view(&self) -> DefinitionView {
        DefinitionView {
            geometry_name: self.geometry_name@,
            part_number: self.part_number@,
            units: self.units,
            height: self.height,
            points: self.points@,
        }
    }
}

pub open spec fn definitions_view(v: Seq<ComponentDefinition>) -> Seq<DefinitionView> {
    v.map_values(|c: ComponentDefinition| c@)
}

#[derive(Clone, Debug, PartialEq)]
pub enum FileType {
    BoardFile { board_name: String, units: Unit },
    PanelFile { board_name: String, units: Unit },
    LibraryFile { components: Vec<ComponentDefinition> },
}

pub enum FileTypeView {
    BoardFile { board_name: Seq<char>, units: Unit },
    PanelFile { board_name: Seq<char>, units: Unit },
    LibraryFile { components: Seq<DefinitionView> },
}

impl View for FileType {
    type V = FileTypeView;

    open spec fn view(&self) -> FileTypeView {
        match self {
            FileType::BoardFile { board_name, units } => FileTypeView::BoardFile {
                board_name: board_name@,
                units: *units,
            },
            FileType::PanelFile { board_name, units } => FileTypeView::PanelFile {
                board_name: board_name@,
                units: *units,
            },
            FileType::LibraryFile { components } => FileTypeView::LibraryFile {
                components: definitions_view(components@),
            },
        }
    }
}

#[derive(Clone, Debug, PartialEq)]
pub struct Header {
    pub ty: FileType,
    pub source: String,
    pub date: String,
    pub board_file_version: u32,
}

pub struct HeaderView {
    pub ty: FileTypeView,
    pub source: Seq<char>,
    pub date: Seq<char>,
    pub board_file_version: u32,
}

impl View for Header {
    type V = HeaderView;

    open spec fn view(&self) -> HeaderView {
        HeaderView {
            ty: self.ty@,
            source: self.source@,
            date: self.date@,
            board_file_version: self.board_file_version,
        }
    }
}

/// A decoded IDF 3.0 document.
#[derive(Clone, Debug, PartialEq)]
pub struct Idf30 {
    pub header: Header,
    pub placement: Vec<ComponentPlacement>,
    pub other_sections: Vec<IdfSection>,
}

pub struct Idf30View {
    pub header: HeaderView,
    pub placement: Seq<PlacementView>,
    pub other_sections: Seq<SectionView>,
}

impl View for Idf30 {
    type V = Idf30View;

    open spec fn view(&self) -> Idf30View {
        Idf30View {
            header: self.header@,
            placement: placements_view(self.placement@),
            other_sections: self.other_sections@.map_values(|s: IdfSection| s@),
        }
    }
}

} // verus!
