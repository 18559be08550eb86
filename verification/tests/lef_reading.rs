use topstitch::io::IO;
use topstitch::lefmacros::{
    lef_port_io, lef_port_kept, parse_lef_macros, LefErrorKind, LefMacro, LefParseError,
    LefPort, LefPortError,
};
use topstitch::lefparse::PinDirection;

const SAMPLE: &str = "VERSION 5.8 ;\n\
BUSBITCHARS \"[]\" ;\n\
# a comment line\n\
PROPERTYDEFINITIONS\n\
  MACRO foo STRING ;\n\
  PIN bar INTEGER ;\n\
END PROPERTYDEFINITIONS\n\
\n\
MACRO top\n\
  CLASS BLOCK ;\n\
  SIZE 10.5 BY 20 ;\n\
  PIN a[1]\n\
    DIRECTION INPUT ;\n\
    use signal ;\n\
    PORT\n\
      LAYER M1 ;\n\
        RECT 0 0 1 2 ;\n\
        RECT 5 5 6 6 ;\n\
    END\n\
  END a[1]\n\
  PIN a[0]\n\
    DIRECTION INPUT ;\n\
    PORT\n\
      LAYER M2 ;\n\
        POLYGON 0 0 0 1 1 1 ;\n\
    END\n\
  END a[0]\n\
  PIN clk\n\
    DIRECTION OUTPUT ;\n\
    USE CLOCK ;\n\
  END clk\n\
  OBS\n\
    LAYER M1 ;\n\
    RECT 0 0 10 10 ;\n\
  END\n\
END top\n\
MACRO \"second\" ;\n\
END second\n";

fn strings(v: &[&str]) -> Vec<String> {
    v.iter().map(|s| s.to_string()).collect()
}

fn parse(text: &str) -> Result<Vec<LefMacro>, LefParseError> {
    parse_lef_macros(text, '[', ']', &strings(&["PROPERTYDEFINITIONS"]), None)
}

fn points(p: &[(String, String)]) -> Vec<(&str, &str)> {
    p.iter().map(|(x, y)| (x.as_str(), y.as_str())).collect()
}

#[test]
fn lef_macros_are_read() {
    let macros = parse(SAMPLE).unwrap();
    assert_eq!(macros.len(), 2);
    let top = &macros[0];
    assert_eq!(top.name, "top");
    assert_eq!(top.width.as_deref(), Some("10.5"));
    assert_eq!(top.height.as_deref(), Some("20"));
    assert_eq!(top.pins.len(), 2);

    let a = &top.pins[0];
    assert_eq!(a.name, "a");
    assert_eq!(a.direction, Some(PinDirection::Input));
    assert_eq!(a.pin_use.as_deref(), Some("SIGNAL"));
    assert_eq!(a.bits.len(), 2);
    let (bit1, shape1) = a.bits.get_index(0).unwrap();
    assert_eq!(*bit1, 1);
    let shape1 = shape1.as_ref().unwrap();
    assert_eq!(shape1.layer, "M1");
    assert_eq!(points(&shape1.points), vec![("0", "0"), ("0", "2"), ("1", "2"), ("1", "0")]);
    let (bit0, shape0) = a.bits.get_index(1).unwrap();
    assert_eq!(*bit0, 0);
    let shape0 = shape0.as_ref().unwrap();
    assert_eq!(shape0.layer, "M2");
    assert_eq!(points(&shape0.points), vec![("0", "0"), ("0", "1"), ("1", "1")]);
    assert_eq!(lef_port_io(a), Ok(IO::Input(2)));

    let clk = &top.pins[1];
    assert_eq!(clk.name, "clk");
    assert_eq!(clk.direction, Some(PinDirection::Output));
    assert_eq!(clk.pin_use.as_deref(), Some("CLOCK"));
    assert_eq!(clk.bits.len(), 1);
    assert!(clk.bits.get(&0).unwrap().is_none());
    assert_eq!(lef_port_io(clk), Ok(IO::Output(1)));

    let second = &macros[1];
    assert_eq!(second.name, "second");
    assert!(second.width.is_none());
    assert!(second.pins.is_empty());
}

#[test]
fn lef_layers_can_be_restricted() {
    let keep = strings(&["M2"]);
    let macros =
        parse_lef_macros(SAMPLE, '[', ']', &strings(&["PROPERTYDEFINITIONS"]), Some(&keep)).unwrap();
    let a = &macros[0].pins[0];
    assert!(a.bits.get(&1).unwrap().is_none());
    assert_eq!(a.bits.get(&0).unwrap().as_ref().unwrap().layer, "M2");
}

#[test]
fn lef_skipped_section_hides_its_contents() {
    // Without skipping, the MACRO line inside PROPERTYDEFINITIONS starts a macro.
    let macros = parse_lef_macros(SAMPLE, '[', ']', &Vec::new(), None).unwrap();
    assert_eq!(macros.len(), 3);
    assert_eq!(macros[0].name, "foo");
    assert_eq!(macros[0].pins[0].name, "bar");
}

fn error_of(text: &str) -> LefParseError {
    match parse(text) {
        Err(e) => e,
        Ok(_) => panic!("expected an error"),
    }
}

#[test]
fn lef_reading_errors() {
    assert_eq!(
        error_of("PIN x\n"),
        LefParseError { line: 1, kind: LefErrorKind::PinOutsideMacro }
    );
    assert_eq!(
        error_of("MACRO m\nPIN x\nEND x\nPIN x\n"),
        LefParseError { line: 4, kind: LefErrorKind::RepeatedBit }
    );
    assert_eq!(
        error_of("MACRO m\nPIN x[0]\nDIRECTION INPUT ;\nPIN x[1]\nDIRECTION OUTPUT ;\n"),
        LefParseError { line: 5, kind: LefErrorKind::MismatchedDirection }
    );
    assert_eq!(
        error_of("MACRO m\nPIN x\nUSE SIGNAL ;\nUSE POWER ;\n"),
        LefParseError { line: 4, kind: LefErrorKind::MismatchedUse }
    );
    assert_eq!(
        error_of("MACRO m\nPIN x\nPORT\nLAYER M1 ;\nRECT 0 0 1 ;\n"),
        LefParseError { line: 5, kind: LefErrorKind::InvalidRect }
    );
    assert_eq!(
        error_of("MACRO m\nPIN x\nPORT\nLAYER M1 ;\nPOLYGON 0 0 1 1 2 ;\n"),
        LefParseError { line: 5, kind: LefErrorKind::InvalidPolygon }
    );
    assert_eq!(
        error_of("MACRO m\nPIN x\nPORT\nRECT 0 0 1 1 ;\n"),
        LefParseError { line: 4, kind: LefErrorKind::ShapeWithoutLayer }
    );
    assert_eq!(
        error_of("MACRO m\nSIZE 1 X 2 ;\n"),
        LefParseError { line: 2, kind: LefErrorKind::InvalidSize }
    );
    assert_eq!(error_of("SIZE 1 BY 2 ;\n"), LefParseError { line: 1, kind: LefErrorKind::SizeOutsideMacro });
    assert_eq!(error_of("MACRO\n"), LefParseError { line: 1, kind: LefErrorKind::MissingMacroName });
    assert_eq!(
        error_of("MACRO m\nDIRECTION INPUT ;\n"),
        LefParseError { line: 2, kind: LefErrorKind::DirectionOutsidePin }
    );
    assert_eq!(
        error_of("MACRO m\nPIN x\nPORT\nLAYER\n"),
        LefParseError { line: 4, kind: LefErrorKind::MissingLayerName }
    );
}

#[test]
fn lef_crlf_and_last_line_without_newline() {
    let macros = parse("MACRO m\r\n  PIN x\r\n  DIRECTION inout ;\r\nEND m").unwrap();
    assert_eq!(macros.len(), 1);
    assert_eq!(macros[0].pins[0].direction, Some(PinDirection::InOut));
}

fn port(bits: &[usize], pin_use: Option<&str>) -> LefPort {
    LefPort {
        name: "p".to_string(),
        direction: None,
        pin_use: pin_use.map(|u| u.to_string()),
        bits: bits.iter().map(|b| (*b, None)).collect(),
    }
}

#[test]
fn lef_port_width_and_filter() {
    assert_eq!(lef_port_io(&port(&[2, 0, 1], None)), Ok(IO::InOut(3)));
    assert_eq!(lef_port_io(&port(&[0, 2], None)), Err(LefPortError::NonContiguousBits));
    assert_eq!(lef_port_io(&port(&[5], None)), Err(LefPortError::NonContiguousBits));
    assert_eq!(lef_port_io(&port(&[], None)), Err(LefPortError::NoBits));
    let skip = strings(&["POWER", "GROUND"]);
    assert!(lef_port_kept(&port(&[0], None), &Vec::new(), &skip));
    assert!(!lef_port_kept(&port(&[0], Some("power")), &Vec::new(), &skip));
    assert!(!lef_port_kept(&port(&[0], None), &strings(&["p"]), &skip));
    assert!(!lef_port_kept(&port(&[0], None), &Vec::new(), &strings(&["SIGNAL"])));
}

#[test]
fn lef_ports_are_gathered_by_name() {
    let macros = parse("MACRO m\nPIN a[0]\nEND a[0]\nPIN b\nEND b\nPIN a[1]\nEND a[1]\nEND m\n").unwrap();
    let pins = &macros[0].pins;
    assert_eq!(pins.len(), 2);
    assert_eq!(pins[0].name, "a");
    assert_eq!(pins[1].name, "b");
    let bits: Vec<usize> = pins[0].bits.keys().copied().collect();
    assert_eq!(bits, vec![0, 1]);
    assert_eq!(lef_port_io(&pins[0]), Ok(IO::InOut(2)));
}
