use idf::idf30::{
    BoardSide, ComponentDefinition, ComponentPlacement, FileType, Header, Idf30, IdfSection,
    IdfValue, LoopLabel, PlacementStatus, Point, ReferenceDesignator, Unit,
};
use idf::number::Decimal;

fn d(mantissa: i64, scale: u32) -> Decimal {
    Decimal::new(mantissa, scale)
}

fn placement(x: Decimal, rotation: Decimal) -> ComponentPlacement {
    ComponentPlacement {
        package_name: "R0805".to_string(),
        part_number: "RES".to_string(),
        designator: ReferenceDesignator::Any("R1".to_string()),
        x,
        y: d(0, 0),
        z: d(0, 0),
        rotation,
        board_side: BoardSide::Top,
        placement_status: PlacementStatus::Placed,
    }
}

const BOARD: &str = "\
.HEADER
BOARD_FILE 3.0 cad 2024/01/01 1
demo_board MM
.END_HEADER
.BOARD_OUTLINE ECAD
1.6
0 0.0 0.0 0.0
.END_BOARD_OUTLINE
.PLACEMENT
R0805 RES_10K R1
10.5 20.25 0.0 90.0 TOP PLACED
\"\" CAP_1U TP9
1.0 -2.0 0.0 0.0 BOTTOM MCAD
.END_PLACEMENT
";

#[test]
fn rotation_has_three_decimals_and_x_four() {
    let text = placement(d(15, 1), d(90, 0)).to_string();
    assert_eq!(text, "R0805 RES R1\n  1.5000 0.0000 0.0000 90.000 TOP PLACED\n");
    assert!(text.contains("90.000 "));
    assert!(text.contains("1.5000"));
}

#[test]
fn decimals_round_half_away_from_zero() {
    let text = placement(d(-123455, 5), d(12345, 4)).to_string();
    assert_eq!(text, "R0805 RES R1\n  -1.2346 0.0000 0.0000 1.235 TOP PLACED\n");
    let tiny = placement(d(-1, 5), d(-4, 4)).to_string();
    assert_eq!(tiny, "R0805 RES R1\n  0.0000 0.0000 0.0000 0.000 TOP PLACED\n");
    let big = placement(d(1234, 0), d(0, 30)).to_string();
    assert_eq!(big, "R0805 RES R1\n  1234.0000 0.0000 0.0000 0.000 TOP PLACED\n");
}

#[test]
fn empty_strings_are_written_as_quote_pairs() {
    let mut p = placement(d(0, 0), d(0, 0));
    p.package_name = String::new();
    p.designator = ReferenceDesignator::NoRefDes;
    assert_eq!(p.to_string(), "\"\" RES NOREFDES\n  0.0000 0.0000 0.0000 0.000 TOP PLACED\n");
    assert_eq!(ReferenceDesignator::Any(String::new()).to_string(), "\"\"");
    assert_eq!(ReferenceDesignator::Board.to_string(), "BOARD");
}

#[test]
fn tokens_of_enumerations() {
    assert_eq!(Unit::SImm.to_string(), "MM");
    assert_eq!(Unit::Mils.to_string(), "THOU");
    assert_eq!(BoardSide::Bottom.to_string(), "BOTTOM");
    assert_eq!(PlacementStatus::MCad.to_string(), "MCAD");
    assert_eq!(PlacementStatus::ECad.to_string(), "ECAD");
    assert_eq!(PlacementStatus::Unplaced.to_string(), "UNPLACED");
    let lib = FileType::LibraryFile { components: vec![] };
    assert_eq!(lib.to_string(), "LIBRARY_FILE");
}

#[test]
fn values_are_written_by_kind() {
    assert_eq!(IdfValue::Integer(-42).to_string(), "-42");
    assert_eq!(IdfValue::Integer(i64::MIN).to_string(), "-9223372036854775808");
    assert_eq!(IdfValue::Float(d(16, 1)).to_string(), "1.6000");
    assert_eq!(IdfValue::String("abc".to_string()).to_string(), "abc");
    assert_eq!(IdfValue::String(String::new()).to_string(), "\"\"");
}

#[test]
fn section_is_written_with_one_indentation() {
    let s = IdfSection {
        name: "BOARD_OUTLINE".to_string(),
        args: vec!["ECAD".to_string()],
        records: vec![
            vec![IdfValue::Float(d(16, 1))],
            vec![IdfValue::Integer(0), IdfValue::Float(d(25, 1))],
        ],
    };
    assert_eq!(s.to_string(), ".BOARD_OUTLINE ECAD\n  1.6000\n  0 2.5000\n.END_BOARD_OUTLINE\n");
}

#[test]
fn header_records_by_file_type() {
    let board = Header {
        ty: FileType::BoardFile { board_name: "b".to_string(), units: Unit::Mils },
        source: "src".to_string(),
        date: "today".to_string(),
        board_file_version: 12,
    };
    assert_eq!(board.to_string(), ".HEADER\nBOARD_FILE 3.0 src today 12\nb THOU\n.END_HEADER\n");
    let lib = Header {
        ty: FileType::LibraryFile { components: vec![] },
        source: String::new(),
        date: "today".to_string(),
        board_file_version: 0,
    };
    assert_eq!(lib.to_string(), ".HEADER\nLIBRARY_FILE 3.0 \"\" today 0\n.END_HEADER\n");
}

#[test]
fn definition_is_written_as_electrical_section() {
    let def = ComponentDefinition {
        geometry_name: "SOT23".to_string(),
        part_number: "BC847".to_string(),
        units: Unit::SImm,
        height: d(1, 0),
        points: vec![
            Point { label: LoopLabel::CounterClockwise, x: d(0, 0), y: d(-5, 1), angle: d(0, 0) },
            Point { label: LoopLabel::Clockwise, x: d(1, 0), y: d(0, 0), angle: d(180, 0) },
        ],
    };
    assert_eq!(
        def.to_string(),
        ".ELECTRICAL\nSOT23 BC847 MM 1.0000\n0 0.0000 -0.5000 0.0000\n1 1.0000 0.0000 180.0000\n.END_ELECTRICAL\n"
    );
}

#[test]
fn board_document_is_written_canonically() {
    let doc = Idf30::parse(BOARD).unwrap();
    assert_eq!(
        doc.to_string(),
        ".HEADER\nBOARD_FILE 3.0 cad 2024/01/01 1\ndemo_board MM\n.END_HEADER\n\
         .BOARD_OUTLINE ECAD\n  1.6000\n  0 0.0000 0.0000 0.0000\n.END_BOARD_OUTLINE\n\
         .PLACEMENT\nR0805 RES_10K R1\n  10.5000 20.2500 0.0000 90.000 TOP PLACED\n\
         \"\" CAP_1U TP9\n  1.0000 -2.0000 0.0000 0.000 BOTTOM MCAD\n.END_PLACEMENT\n"
    );
}

#[test]
fn panel_document_has_no_placement_section() {
    let text = ".HEADER\nPANEL_FILE 3.0 s d 1\np MM\n.END_HEADER\n.PLACEMENT\nA P R1\n1.0 2.0 0.0 0.0 TOP PLACED\n.END_PLACEMENT\n";
    let doc = Idf30::parse(text).unwrap();
    assert_eq!(doc.placement.len(), 1);
    assert_eq!(doc.to_string(), ".HEADER\nPANEL_FILE 3.0 s d 1\np MM\n.END_HEADER\n");
}

#[test]
fn decoding_the_encoding_gives_the_document_back() {
    let first = Idf30::parse(BOARD).unwrap();
    let again = Idf30::parse(&first.to_string()).unwrap();
    assert_eq!(first, again);
}

#[test]
fn library_round_trip() {
    let text = ".HEADER\nLIBRARY_FILE 3.0 s d 1\n.END_HEADER\n\
                .ELECTRICAL\nA PA MM 1.0\nPROP X 1.0\n0 0.0 0.5 0.0\n.END_ELECTRICAL\n\
                .ELECTRICAL\nB PB THOU 2.0\n.END_ELECTRICAL\n";
    let first = Idf30::parse(text).unwrap();
    let encoded = first.to_string();
    assert_eq!(
        encoded,
        ".HEADER\nLIBRARY_FILE 3.0 s d 1\n.END_HEADER\n\
         .ELECTRICAL\nA PA MM 1.0000\n0 0.0000 0.5000 0.0000\n.END_ELECTRICAL\n\
         .ELECTRICAL\nB PB THOU 2.0000\n.END_ELECTRICAL\n"
    );
    assert_eq!(Idf30::parse(&encoded).unwrap(), first);
}

#[test]
fn edited_document_is_written_with_its_changes() {
    let mut doc = Idf30::parse(BOARD).unwrap();
    doc.header.source = format!("rust_idf_{}", doc.header.source);
    doc.placement.retain(|c| !c.designator.is_test_point());
    let text = doc.to_string();
    assert!(text.starts_with(".HEADER\nBOARD_FILE 3.0 rust_idf_cad 2024/01/01 1\n"));
    assert!(!text.contains("TP9"));
}
