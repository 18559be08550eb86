use topstitch::enumtypes::{cast_connection, remap_enum_types, EnumRemapping};

fn remapping(entries: &[(&str, &str, &str, &str)]) -> EnumRemapping {
    let mut m: EnumRemapping = Vec::new();
    for (module, inst, port, enum_name) in entries {
        m.push((
            module.to_string(),
            vec![(inst.to_string(), vec![(port.to_string(), enum_name.to_string())])],
        ));
    }
    m
}

#[test]
fn test_remap_enum_types() {
    let enum_remapping = remapping(&[
        ("ModA", "instA", "portA", "EnumTypeA"),
        ("ModB", "instB", "portB", "EnumTypeB"),
    ]);

    let input_verilog = "
module ModA (
    input wire [1:0] portA,
    output wire [1:0] portB
);
    wire [1:0] signalA;
    wire [1:0] signalB;
    ModB instA (
        .portA(signalA[1:0]),
        .portB(signalB[1:0])
    );
endmodule

module ModB (
    input wire [1:0] portA,
    output wire [1:0] portB
);
    wire [1:0] signalC;
    wire [1:0] signalD;
    ModC instB (
        .portA(signalC),
        .portB(signalD)
    );
endmodule
"
    .to_string();

    let expected_output = "
module ModA (
    input wire [1:0] portA,
    output wire [1:0] portB
);
    wire [1:0] signalA;
    wire [1:0] signalB;
    ModB instA (
        .portA(EnumTypeA'(signalA[1:0])),
        .portB(signalB[1:0])
    );
endmodule

module ModB (
    input wire [1:0] portA,
    output wire [1:0] portB
);
    wire [1:0] signalC;
    wire [1:0] signalD;
    ModC instB (
        .portA(signalC),
        .portB(EnumTypeB'(signalD))
    );
endmodule
"
    .to_string();

    let result = remap_enum_types(input_verilog, &enum_remapping);
    assert_eq!(result, expected_output);
}

#[test]
fn remap_leaves_unlisted_text_alone() {
    let m = remapping(&[("Top", "u0", "sel", "Mode")]);
    let text = "module Other(\n  Sub u0 (\n    .sel(x)\n  );\nendmodule".to_string();
    assert_eq!(remap_enum_types(text.clone(), &m), text);
    let text = "module Top(\n  Sub u0 (\n    .sel(x),\n    .other(y)\n  );\n  .sel(z)\nendmodule".to_string();
    assert_eq!(
        remap_enum_types(text, &m),
        "module Top(\n  Sub u0 (\n    .sel(Mode'(x)),\n    .other(y)\n  );\n  .sel(z)\nendmodule"
    );
}

#[test]
fn cast_connection_text() {
    assert_eq!(cast_connection("p", "E", "s[1:0]"), ".p(E'(s[1:0]))");
}
