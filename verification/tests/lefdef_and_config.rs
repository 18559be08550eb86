use topstitch::lefparse::parse_pin_name;
use topstitch::config::{EmitOptions, Package, Parameter, ParserConfig, PipelineConfig};
use topstitch::io::{ParameterType, PortDirectionality, IO};
use topstitch::lefdef::{
    generate_def, lef_def_pin_name, DefComponent, DefDieArea, DefOrientation, DefPin, DefPoint,
    LefDefOptions,
};
use topstitch::transform::Orientation;

#[test]
fn io_directions() {
    let i = IO::Input(8);
    assert_eq!(i.width(), 8);
    assert_eq!(i.flip(), IO::Output(8));
    assert_eq!(i.flip().flip(), i);
    assert_eq!(IO::InOut(2).flip(), IO::InOut(2));
    assert_eq!(IO::Output(3).with_width(5), IO::Output(5));
    assert_eq!(i.to_def_direction(), "INPUT");
    assert_eq!(IO::Output(1).to_lef_direction(), "OUTPUT");
    assert_eq!(IO::InOut(1).to_def_direction(), "INOUT");
}

#[test]
fn directionality_and_parameter_types() {
    assert!(PortDirectionality::Driver.compatible_with(&PortDirectionality::Receiver));
    assert!(PortDirectionality::Receiver.compatible_with(&PortDirectionality::Driver));
    assert!(!PortDirectionality::Driver.compatible_with(&PortDirectionality::Driver));
    assert!(!PortDirectionality::Receiver.compatible_with(&PortDirectionality::Receiver));
    assert!(PortDirectionality::InOut.compatible_with(&PortDirectionality::Driver) && PortDirectionality::Receiver.compatible_with(&PortDirectionality::InOut));
    assert_eq!(ParameterType::Signed(12).width(), 12);
    assert!(ParameterType::Signed(12).signed());
    assert!(!ParameterType::Unsigned(4).signed());
}

#[test]
fn def_orientations() {
    assert_eq!(DefOrientation::from_orientation(Orientation::R0).as_str(), "N");
    assert_eq!(DefOrientation::from_orientation(Orientation::R90).as_str(), "W");
    assert_eq!(DefOrientation::from_orientation(Orientation::R180).as_str(), "S");
    assert_eq!(DefOrientation::from_orientation(Orientation::R270).as_str(), "E");
    assert_eq!(DefOrientation::from_orientation(Orientation::MX).as_str(), "FS");
    assert_eq!(DefOrientation::from_orientation(Orientation::MY).as_str(), "FN");
    assert_eq!(DefOrientation::from_orientation(Orientation::MX90).as_str(), "FW");
    assert_eq!(DefOrientation::from_orientation(Orientation::MY90).as_str(), "FE");
}

fn pin() -> DefPin {
    DefPin {
        name: "clk".to_string(),
        direction: "INPUT".to_string(),
        pin_use: "SIGNAL".to_string(),
        layer: "M1".to_string(),
        shape: (DefPoint { x: -1, y: -2 }, DefPoint { x: 1, y: 2 }),
        position: DefPoint { x: 0, y: 30 },
        orientation: DefOrientation::N,
    }
}

#[test]
fn def_items_as_text() {
    assert_eq!(DefPoint { x: 1, y: -2 }.to_string(), "( 1 -2 )");
    let die = DefDieArea { points: vec![DefPoint { x: 0, y: 0 }, DefPoint { x: 100, y: 200 }] };
    assert_eq!(die.to_string(), "DIEAREA ( 0 0 ) ( 100 200 ) ;");
    assert_eq!(
        pin().to_string(),
        "- clk + NET clk + DIRECTION INPUT + USE SIGNAL + LAYER M1 ( -1 -2 ) ( 1 2 ) + FIXED ( 0 30 ) N ;"
    );
    let comp = DefComponent {
        inst_name: "u1".to_string(),
        macro_name: "blk".to_string(),
        x: 10,
        y: -20,
        orientation: DefOrientation::FS,
    };
    assert_eq!(comp.to_string(), "- u1 blk + PLACED ( 10 -20 ) FS ;");
}

#[test]
fn def_generation() {
    let opts = LefDefOptions::default();
    assert_eq!(opts.divider_char, "/");
    assert_eq!(opts.bus_bit_chars, "[]");
    let die = DefDieArea { points: vec![DefPoint { x: 0, y: 0 }, DefPoint { x: 100, y: 200 }] };
    let comp = DefComponent {
        inst_name: "u1".to_string(),
        macro_name: "blk".to_string(),
        x: 10,
        y: 20,
        orientation: DefOrientation::N,
    };
    let text = generate_def("top", Some(&die), &[pin()], &[comp.clone()], &opts);
    let expected = "VERSION 5.8 ;\n\
DIVIDERCHAR \"/\" ;\n\
BUSBITCHARS \"[]\" ;\n\
DESIGN top ;\n\
UNITS DISTANCE MICRONS 1 ;\n\n\
DIEAREA ( 0 0 ) ( 100 200 ) ;\n\
PINS 1 ;\n  - clk + NET clk + DIRECTION INPUT + USE SIGNAL + LAYER M1 ( -1 -2 ) ( 1 2 ) + FIXED ( 0 30 ) N ;\n\
END PINS\n\
COMPONENTS 1 ;\n  - u1 blk + PLACED ( 10 20 ) N ;\n\
END COMPONENTS\n\n\
END DESIGN\n";
    assert_eq!(text, expected);
    let bare = generate_def("empty", None, &[], &[], &opts);
    assert_eq!(
        bare,
        "VERSION 5.8 ;\nDIVIDERCHAR \"/\" ;\nBUSBITCHARS \"[]\" ;\nDESIGN empty ;\nUNITS DISTANCE MICRONS 1 ;\n\nEND DESIGN\n"
    );
    let no_pins = LefDefOptions { include_pins: false, ..LefDefOptions::default() };
    let text = generate_def("t", None, &[pin()], &[], &no_pins);
    assert!(!text.contains("PINS"));
}

#[test]
fn lef_def_pin_names() {
    assert_eq!(lef_def_pin_name("a", 1, 0, '[', ']'), "a");
    assert_eq!(lef_def_pin_name("a", 4, 2, '[', ']'), "a[2]");
    assert_eq!(lef_def_pin_name("bus", 16, 15, '<', '>'), "bus<15>");
}

#[test]
fn option_defaults() {
    let e = EmitOptions::default();
    assert!(e.validate && !e.bitblast_assignments);
    assert!(!e.preserve_single_bit_slices && !e.preserve_full_width_slices);
    let p = PipelineConfig::default();
    assert_eq!(p.clk, "clk");
    assert_eq!(p.depth, 0);
    assert!(p.inst_name.is_none());
}

#[test]
fn parser_config_key() {
    let d = ParserConfig::default();
    assert!(d.sources.is_empty() && d.ignore_unknown_modules && d.ignore_protected);
    let sources = ["a.sv", "b.sv"];
    let defines = [("X", "1")];
    let cfg = ParserConfig {
        sources: &sources,
        defines: &defines,
        timescale: Some("1ns/1ps"),
        include_hierarchy: true,
        ..ParserConfig::default()
    };
    let key = cfg.to_owned_key();
    assert_eq!(key.sources, vec!["a.sv".to_string(), "b.sv".to_string()]);
    assert_eq!(key.defines, vec![("X".to_string(), "1".to_string())]);
    assert_eq!(key.timescale, Some("1ns/1ps".to_string()));
    assert!(key.include_hierarchy && key.ignore_unknown_modules);
    assert!(key.tops.is_empty());
    assert_eq!(key, cfg.to_owned_key());
}

#[test]
fn package_lookup() {
    let pkg = Package {
        name: "pkg".to_string(),
        parameters: vec![
            Parameter { name: "WIDTH".to_string(), value: "8".to_string() },
            Parameter { name: "DEPTH".to_string(), value: "32".to_string() },
        ],
    };
    assert_eq!(pkg.get("DEPTH").map(|p| p.value.clone()), Some("32".to_string()));
    assert!(pkg.get("MISSING").is_none());
}

#[test]
fn pin_names_parse_back_to_port_and_bit() {
    for (port, bit, open, close) in [("a", 0usize, '[', ']'), ("bus", 15, '<', '>'), ("x[1]", 123, '[', ']')] {
        let name = lef_def_pin_name(port, 200, bit, open, close);
        assert_eq!(parse_pin_name(&name, open, close), (port.to_string(), bit));
    }
}
