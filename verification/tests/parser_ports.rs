use topstitch::io::IO;
use topstitch::parserports::{mod_def_from_parser_ports, ParserPort, PortDir};
use topstitch::validation::Usage;

fn port(name: &str, dir: PortDir, width: usize, scalar_enum: Option<&str>) -> ParserPort {
    ParserPort { name: name.to_string(), dir, width, scalar_enum: scalar_enum.map(|e| e.to_string()) }
}

#[test]
fn ports_keep_their_first_place_and_enum_inputs_are_noted() {
    let ports = vec![
        port("a", PortDir::Input, 4, None),
        port("b", PortDir::Output, 1, Some("state_t")),
        port("c", PortDir::Input, 1, Some("mode_t")),
        port("a", PortDir::InOut, 2, None),
        port("c", PortDir::Input, 1, Some("other_t")),
    ];
    let m = mod_def_from_parser_ports("top", &ports);
    assert_eq!(m.name, "top");
    assert_eq!(
        m.ports,
        vec![("a".to_string(), IO::InOut(2)), ("b".to_string(), IO::Output(1)), ("c".to_string(), IO::Input(1))]
    );
    assert_eq!(m.enum_ports, vec![("c".to_string(), "other_t".to_string())]);
    assert_eq!(m.usage, Usage::EmitNothingAndStop);
    let empty = mod_def_from_parser_ports("leaf", &vec![]);
    assert!(empty.ports.is_empty() && empty.enum_ports.is_empty());
}
