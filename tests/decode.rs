use idf::idf30::{
    BoardSide, Error, FileType, Idf30, IdfValue, LoopLabel, PlacementStatus, ReferenceDesignator,
    Unit,
};
use idf::lexer::Token;
use idf::number::Decimal;
use idf::records::parse_placement_section;

const BOARD: &str = "\
.HEADER
BOARD_FILE 3.0 \"Sample CAD\" 2024/01/01.12:00:00 1
demo_board MM
.END_HEADER
# an outline
.BOARD_OUTLINE ECAD
1.6000
0 0.0 0.0 0.0
0 100.0 0.0 0.0
.END_BOARD_OUTLINE
.PLACEMENT
R0805 RES_10K R1
10.5 20.25 0.0 90.0 TOP PLACED
\"\" CAP_1U TP9
1.0 -2.0 0.0 0.0 BOTTOM MCAD
.END_PLACEMENT
";

const LIBRARY: &str = "\
.HEADER
LIBRARY_FILE 3.0 lib_source 2024/01/01 1
.END_HEADER
.ELECTRICAL
SOT23 BC847 THOU 40.0
0 0.0 0.0 0.0
.END_ELECTRICAL
.ELECTRICAL
\"R0805\" RES MM 0.5
PROP CAPACITANCE 1.0
0 -1.0 -0.6 0.0
1 1.0 0.6 180.0
.END_ELECTRICAL
";

fn d(mantissa: i64, scale: u32) -> Decimal {
    Decimal::new(mantissa, scale)
}

fn tok(s: &str) -> Token {
    Token { text: s.chars().collect(), quoted: false }
}

fn record(tokens: &[&str]) -> Vec<Token> {
    tokens.iter().map(|s| tok(s)).collect()
}

fn board_with_placement(placement: &str) -> String {
    format!(
        ".HEADER\nBOARD_FILE 3.0 src date 1\nb MM\n.END_HEADER\n.PLACEMENT\n{}.END_PLACEMENT\n",
        placement
    )
}

#[test]
fn board_file_parse() {
    let board = Idf30::parse(BOARD).unwrap();
    assert!(matches!(board.header.ty, FileType::BoardFile { .. }));
}

#[test]
fn library_file_parse() {
    let lib = Idf30::parse(LIBRARY).unwrap();
    assert!(matches!(lib.header.ty, FileType::LibraryFile { .. }));
}

#[test]
fn board_header_fields() {
    let board = Idf30::parse(BOARD).unwrap();
    assert_eq!(board.header.source, "Sample CAD");
    assert_eq!(board.header.date, "2024/01/01.12:00:00");
    assert_eq!(board.header.board_file_version, 1);
    match &board.header.ty {
        FileType::BoardFile { board_name, units } => {
            assert_eq!(board_name, "demo_board");
            assert_eq!(*units, Unit::SImm);
        }
        _ => panic!("board file expected"),
    }
}

#[test]
fn board_placements() {
    let board = Idf30::parse(BOARD).unwrap();
    assert_eq!(board.placement.len(), 2);
    let r1 = &board.placement[0];
    assert_eq!(r1.package_name, "R0805");
    assert_eq!(r1.part_number, "RES_10K");
    assert_eq!(r1.designator, ReferenceDesignator::Any("R1".to_string()));
    assert_eq!(r1.x, d(105, 1));
    assert_eq!(r1.y, d(2025, 2));
    assert_eq!(r1.z, d(0, 0));
    assert_eq!(r1.rotation, d(90, 0));
    assert_eq!(r1.board_side, BoardSide::Top);
    assert_eq!(r1.placement_status, PlacementStatus::Placed);
    let tp = &board.placement[1];
    assert_eq!(tp.package_name, "");
    assert_eq!(tp.y, d(-2, 0));
    assert_eq!(tp.board_side, BoardSide::Bottom);
    assert_eq!(tp.placement_status, PlacementStatus::MCad);
    assert!(tp.designator.is_test_point());
}

#[test]
fn board_generic_section() {
    let board = Idf30::parse(BOARD).unwrap();
    assert_eq!(board.other_sections.len(), 1);
    let s = &board.other_sections[0];
    assert_eq!(s.name, "BOARD_OUTLINE");
    assert_eq!(s.args, vec!["ECAD".to_string()]);
    assert_eq!(s.records.len(), 3);
    assert_eq!(s.records[0], vec![IdfValue::Float(d(16, 1))]);
    assert_eq!(
        s.records[2],
        vec![
            IdfValue::Integer(0),
            IdfValue::Float(d(100, 0)),
            IdfValue::Float(d(0, 0)),
            IdfValue::Float(d(0, 0)),
        ]
    );
}

#[test]
fn generic_values_keep_quotes_and_strings() {
    let text = ".HEADER\nPANEL_FILE 3.0 s d 7\np THOU\n.END_HEADER\n\
                .NOTES \"a b\" x\n-12 \"quoted text\" word 2.5E-3\n.END_NOTES\n";
    let doc = Idf30::parse(text).unwrap();
    let s = &doc.other_sections[0];
    assert_eq!(s.args, vec!["\"a b\"".to_string(), "x".to_string()]);
    assert_eq!(
        s.records[0],
        vec![
            IdfValue::Integer(-12),
            IdfValue::String("\"quoted text\"".to_string()),
            IdfValue::String("word".to_string()),
            IdfValue::Float(d(25, 4)),
        ]
    );
    assert!(matches!(doc.header.ty, FileType::PanelFile { units: Unit::Mils, .. }));
}

#[test]
fn library_definitions_accumulate_in_order() {
    let lib = Idf30::parse(LIBRARY).unwrap();
    let components = match &lib.header.ty {
        FileType::LibraryFile { components } => components,
        _ => panic!("library file expected"),
    };
    assert_eq!(components.len(), 2);
    assert_eq!(components[0].geometry_name, "SOT23");
    assert_eq!(components[0].units, Unit::Mils);
    assert_eq!(components[0].height, d(40, 0));
    assert_eq!(components[0].points.len(), 1);
    assert_eq!(components[1].geometry_name, "R0805");
    assert_eq!(components[1].part_number, "RES");
    assert_eq!(components[1].points.len(), 2);
    assert_eq!(components[1].points[0].label, LoopLabel::CounterClockwise);
    assert_eq!(components[1].points[0].x, d(-1, 0));
    assert_eq!(components[1].points[0].y, d(-6, 1));
    assert_eq!(components[1].points[1].label, LoopLabel::Clockwise);
    assert_eq!(components[1].points[1].angle, d(180, 0));
}

#[test]
fn library_with_one_and_two_outline_records() {
    let text = ".HEADER\nLIBRARY_FILE 3.0 s d 1\n.END_HEADER\n\
                .ELECTRICAL\nA PA MM 1.0\n0 0.0 0.0 0.0\n.END_ELECTRICAL\n\
                .ELECTRICAL\nB PB MM 2.0\n0 0.0 0.0 0.0\n0 1.0 1.0 0.0\n.END_ELECTRICAL\n";
    let lib = Idf30::parse(text).unwrap();
    match &lib.header.ty {
        FileType::LibraryFile { components } => {
            assert_eq!(components.len(), 2);
            assert_eq!(components[0].geometry_name, "A");
            assert_eq!(components[0].points.len(), 1);
            assert_eq!(components[1].geometry_name, "B");
            assert_eq!(components[1].points.len(), 2);
        }
        _ => panic!("library file expected"),
    }
}

#[test]
fn electrical_sections_of_a_board_are_not_kept() {
    let text = ".HEADER\nBOARD_FILE 3.0 s d 1\nb MM\n.END_HEADER\n\
                .ELECTRICAL\nA PA MM 1.0\n.END_ELECTRICAL\n";
    let doc = Idf30::parse(text).unwrap();
    assert!(matches!(doc.header.ty, FileType::BoardFile { .. }));
    assert!(doc.other_sections.is_empty());
}

#[test]
fn odd_placement_records_fail() {
    let text = board_with_placement(
        "A P R1\n1.0 2.0 0.0 0.0 TOP PLACED\nB Q R2\n1.0 2.0 0.0 0.0 TOP PLACED\nC Q R3\n",
    );
    assert_eq!(Idf30::parse(&text).unwrap_err(), Error::MalformedPlacementSection);
}

#[test]
fn odd_placement_records_fail_before_pairs_are_read() {
    let records = vec![
        record(&["A", "P", "R1"]),
        record(&["1.0", "2.0", "0.0", "0.0", "LEFT", "PLACED"]),
        record(&["C", "Q", "R3"]),
    ];
    assert_eq!(parse_placement_section(&records).unwrap_err(), Error::MalformedPlacementSection);
}

#[test]
fn lone_placement_record_fails_in_last_section() {
    let text = board_with_placement("A P R1\n");
    assert_eq!(Idf30::parse(&text).unwrap_err(), Error::MalformedPlacementSection);
}

#[test]
fn placement_section_decodes_pairs() {
    let records = vec![
        record(&["A", "P", "NOREFDES"]),
        record(&["1.0", "2.0", "0.5", "45.0", "BOTTOM", "ECAD"]),
        record(&["B", "Q", "BOARD"]),
        record(&["3.0", "4.0", "0.0", "0.0", "TOP", "UNPLACED"]),
    ];
    let ps = parse_placement_section(&records).unwrap();
    assert_eq!(ps.len(), 2);
    assert_eq!(ps[0].designator, ReferenceDesignator::NoRefDes);
    assert_eq!(ps[0].z, d(5, 1));
    assert_eq!(ps[0].placement_status, PlacementStatus::ECad);
    assert_eq!(ps[1].designator, ReferenceDesignator::Board);
    assert_eq!(ps[1].placement_status, PlacementStatus::Unplaced);
}

#[test]
fn wrong_version_fails_for_every_file_type() {
    for ty in ["BOARD_FILE", "PANEL_FILE", "LIBRARY_FILE", "OTHER_FILE"] {
        let text = format!(".HEADER\n{} 2.0 s d 1\nb MM\n.END_HEADER\n", ty);
        assert_eq!(Idf30::parse(&text).unwrap_err(), Error::UnsupportedVersion);
    }
}

#[test]
fn wrong_file_type_fails() {
    let text = ".HEADER\nOTHER_FILE 3.0 s d 1\nb MM\n.END_HEADER\n";
    assert_eq!(Idf30::parse(text).unwrap_err(), Error::WrongFileType);
}

#[test]
fn wrong_unit_in_header_fails() {
    let text = ".HEADER\nBOARD_FILE 3.0 s d 1\nb INCH\n.END_HEADER\n";
    assert_eq!(Idf30::parse(text).unwrap_err(), Error::WrongUnit);
}

#[test]
fn wrong_unit_in_definition_fails() {
    let text = ".HEADER\nLIBRARY_FILE 3.0 s d 1\n.END_HEADER\n\
                .ELECTRICAL\nA PA INCH 1.0\n.END_ELECTRICAL\n";
    assert_eq!(Idf30::parse(text).unwrap_err(), Error::WrongUnit);
}

#[test]
fn missing_header_fails() {
    assert_eq!(Idf30::parse("").unwrap_err(), Error::MissingHeader);
    assert_eq!(Idf30::parse("# nothing\n\n").unwrap_err(), Error::MissingHeader);
    let text = ".PLACEMENT\n.END_PLACEMENT\n";
    assert_eq!(Idf30::parse(text).unwrap_err(), Error::MissingHeader);
}

#[test]
fn wrong_side_and_status_fail() {
    let side = board_with_placement("A P R1\n1.0 2.0 0.0 0.0 LEFT PLACED\n");
    assert_eq!(Idf30::parse(&side).unwrap_err(), Error::WrongSide);
    let status = board_with_placement("A P R1\n1.0 2.0 0.0 0.0 TOP FIXED\n");
    assert_eq!(Idf30::parse(&status).unwrap_err(), Error::WrongStatus);
}

#[test]
fn short_records_fail() {
    let text = ".HEADER\nBOARD_FILE 3.0 s\nb MM\n.END_HEADER\n";
    assert_eq!(Idf30::parse(text).unwrap_err(), Error::GrammarExpectedPair);
    let pl = board_with_placement("A P R1\n1.0 2.0 0.0 0.0 TOP\n");
    assert_eq!(Idf30::parse(&pl).unwrap_err(), Error::GrammarExpectedPair);
}

#[test]
fn non_float_in_float_field_fails() {
    let text = board_with_placement("A P R1\n1 2.0 0.0 0.0 TOP PLACED\n");
    assert_eq!(Idf30::parse(&text).unwrap_err(), Error::GrammarExpectedRule);
    let quoted = board_with_placement("A P R1\n\"1.0\" 2.0 0.0 0.0 TOP PLACED\n");
    assert_eq!(Idf30::parse(&quoted).unwrap_err(), Error::GrammarExpectedRule);
}

#[test]
fn numeric_overflow_fails() {
    let int = ".HEADER\nBOARD_FILE 3.0 s d 4294967296\nb MM\n.END_HEADER\n";
    assert_eq!(Idf30::parse(int).unwrap_err(), Error::ParseInt);
    let big = ".HEADER\nBOARD_FILE 3.0 s d 1\nb MM\n.END_HEADER\n.X\n99999999999999999999\n.END_X\n";
    assert_eq!(Idf30::parse(big).unwrap_err(), Error::ParseInt);
    let float = board_with_placement("A P R1\n1.0E30 2.0 0.0 0.0 TOP PLACED\n");
    assert_eq!(Idf30::parse(&float).unwrap_err(), Error::ParseFloat);
}

#[test]
fn grammar_errors_report_their_line() {
    let quote = ".HEADER\nBOARD_FILE 3.0 \"open 1\nb MM\n.END_HEADER\n";
    assert_eq!(Idf30::parse(quote).unwrap_err(), Error::Grammar(2));
    let unterminated = ".HEADER\nBOARD_FILE 3.0 s d 1\nb MM\n";
    assert_eq!(Idf30::parse(unterminated).unwrap_err(), Error::Grammar(1));
    let wrong_end = ".HEADER\nBOARD_FILE 3.0 s d 1\n.END_OTHER\n";
    assert_eq!(Idf30::parse(wrong_end).unwrap_err(), Error::Grammar(3));
    let stray = "loose record\n";
    assert_eq!(Idf30::parse(stray).unwrap_err(), Error::Grammar(1));
}

#[test]
fn designators_classify_test_points() {
    assert!(!ReferenceDesignator::NoRefDes.is_test_point());
    assert!(!ReferenceDesignator::Board.is_test_point());
    assert!(ReferenceDesignator::Any("TP3".to_string()).is_test_point());
    assert!(!ReferenceDesignator::Any("T".to_string()).is_test_point());
    assert!(!ReferenceDesignator::Any("R1".to_string()).is_test_point());
}

#[test]
fn decoded_norefdes_is_no_test_point() {
    let text = board_with_placement("A P NOREFDES\n1.0 2.0 0.0 0.0 TOP PLACED\nB Q TP3\n1.0 2.0 0.0 0.0 TOP PLACED\n");
    let doc = Idf30::parse(&text).unwrap();
    assert_eq!(doc.placement[0].designator, ReferenceDesignator::NoRefDes);
    assert!(!doc.placement[0].designator.is_test_point());
    assert!(doc.placement[1].designator.is_test_point());
}
