use topstitch::funnel::PortKind;
use topstitch::io::IO;
use topstitch::netsource::{expression_source, try_expression_source, ExpressionSource, NetSlice, SourceError};

fn slice(kind: PortKind, io: IO, inst: &str, port: &str) -> NetSlice {
    NetSlice {
        kind,
        io,
        inst_name: inst.to_string(),
        port_name: port.to_string(),
        msb: 3,
        lsb: 0,
    }
}

fn inst_in(inst: &str) -> NetSlice {
    slice(PortKind::ModInst, IO::Input(4), inst, "i")
}
fn inst_out(inst: &str) -> NetSlice {
    slice(PortKind::ModInst, IO::Output(4), inst, "o")
}
fn inst_inout(inst: &str) -> NetSlice {
    slice(PortKind::ModInst, IO::InOut(4), inst, "io")
}
fn def_port(io: IO, name: &str) -> NetSlice {
    slice(PortKind::ModDef, io, "", name)
}

#[test]
fn prevailing_slice_names_the_net() {
    let net = vec![inst_in("a"), inst_out("b")];
    assert_eq!(
        try_expression_source(PortKind::ModInst, IO::Input(4), 0, 0, 0, &net),
        Ok(ExpressionSource::PortSlice(1))
    );
    let net = vec![inst_out("b"), def_port(IO::Output(4), "y")];
    assert_eq!(
        try_expression_source(PortKind::ModInst, IO::Output(4), 0, 0, 0, &net),
        Ok(ExpressionSource::PortSlice(1))
    );
    let net = vec![inst_in("a"), def_port(IO::Input(4), "x"), inst_in("c")];
    assert_eq!(
        try_expression_source(PortKind::ModInst, IO::Input(4), 0, 0, 0, &net),
        Ok(ExpressionSource::PortSlice(1))
    );
    let net = vec![inst_inout("b"), inst_inout("a"), inst_inout("a2")];
    assert_eq!(
        try_expression_source(PortKind::ModInst, IO::InOut(4), 0, 0, 0, &net),
        Ok(ExpressionSource::PortSlice(1))
    );
}

#[test]
fn unused_tieoff_and_wire_sources() {
    let net = vec![def_port(IO::Input(4), "x")];
    assert_eq!(
        try_expression_source(PortKind::ModDef, IO::Input(4), 1, 0, 0, &net),
        Ok(ExpressionSource::Unused)
    );
    assert_eq!(
        try_expression_source(PortKind::ModDef, IO::Output(4), 1, 0, 0, &net),
        Err(SourceError::UnusedWrongDirection)
    );
    assert_eq!(
        try_expression_source(PortKind::ModDef, IO::Input(4), 1, 1, 0, &net),
        Err(SourceError::UnusedAndTiedOff)
    );
    assert_eq!(
        try_expression_source(PortKind::ModDef, IO::Input(4), 2, 0, 0, &net),
        Err(SourceError::MultipleUnused)
    );
    let net = vec![inst_in("a")];
    assert_eq!(
        try_expression_source(PortKind::ModInst, IO::Input(4), 0, 1, 0, &net),
        Ok(ExpressionSource::Tieoff)
    );
    assert_eq!(
        try_expression_source(PortKind::ModDef, IO::Input(4), 0, 1, 0, &net),
        Err(SourceError::TieoffWrongDirection)
    );
    assert_eq!(
        try_expression_source(PortKind::ModInst, IO::Input(4), 0, 2, 0, &net),
        Err(SourceError::MultipleTieoffs)
    );
    let net = vec![inst_in("a"), inst_out("b")];
    assert_eq!(
        try_expression_source(PortKind::ModInst, IO::Input(4), 0, 0, 1, &net),
        Ok(ExpressionSource::Wire)
    );
    assert_eq!(
        try_expression_source(PortKind::ModInst, IO::Input(4), 0, 0, 2, &net),
        Err(SourceError::MultipleWires)
    );
    let net = vec![inst_in("a"), def_port(IO::Input(4), "x")];
    assert_eq!(
        try_expression_source(PortKind::ModInst, IO::Input(4), 0, 0, 1, &net),
        Err(SourceError::WireOnModDefInput)
    );
}

#[test]
fn conflicting_drivers_are_reported() {
    let net = vec![inst_out("a"), inst_in("c"), inst_out("b")];
    let e = try_expression_source(PortKind::ModInst, IO::Input(4), 0, 0, 0, &net).unwrap_err();
    assert_eq!(e, SourceError::MultipleModInstOutputs);
    assert_eq!(e.culprits(&net), vec![0, 2]);
    let names = vec!["a.o[3:0]".to_string(), "b.o[3:0]".to_string()];
    assert_eq!(e.message("c.i[3:0]", &names), "c.i[3:0] is multiply driven by a.o[3:0] and b.o[3:0]");

    let net = vec![def_port(IO::Input(4), "x"), inst_out("b")];
    let e = try_expression_source(PortKind::ModInst, IO::Output(4), 0, 0, 0, &net).unwrap_err();
    assert_eq!(e, SourceError::ModDefInputAndModInstOutput);
    assert_eq!(e.culprits(&net), vec![0, 1]);

    let net = vec![def_port(IO::InOut(4), "p"), def_port(IO::Output(4), "y"), inst_out("b")];
    assert_eq!(
        try_expression_source(PortKind::ModInst, IO::Output(4), 0, 0, 0, &net),
        Err(SourceError::ModDefOutputsAndInOut)
    );
    let net = vec![inst_in("a"), inst_in("b")];
    let e = try_expression_source(PortKind::ModInst, IO::Input(4), 0, 0, 0, &net).unwrap_err();
    assert_eq!(e, SourceError::NoDriver);
    assert_eq!(e.message("a.i[3:0]", &[]), "No driver found for a.i[3:0]");
}

#[test]
fn sources_of_nets_that_have_one() {
    let net = vec![inst_in("a"), inst_out("b")];
    assert_eq!(expression_source(PortKind::ModInst, IO::Input(4), 0, 0, 0, &net), ExpressionSource::PortSlice(1));
    let net = vec![def_port(IO::Input(4), "x")];
    assert_eq!(expression_source(PortKind::ModDef, IO::Input(4), 1, 0, 0, &net), ExpressionSource::Unused);
    let net = vec![inst_in("a")];
    assert_eq!(expression_source(PortKind::ModInst, IO::Input(4), 0, 1, 0, &net), ExpressionSource::Tieoff);
}

fn slice_of(kind: PortKind, io: IO, inst: &str, port: &str, msb: usize, lsb: usize) -> NetSlice {
    NetSlice { kind, io, inst_name: inst.to_string(), port_name: port.to_string(), msb, lsb }
}

#[test]
fn test_tieoff_as_driver_input() {
    // instance input `ai.i[1:0]` tied off: the tie-off drives it
    let net = vec![slice_of(PortKind::ModInst, IO::Input(2), "ai", "i", 1, 0)];
    assert_eq!(expression_source(PortKind::ModInst, IO::Input(2), 0, 1, 0, &net), ExpressionSource::Tieoff);
}

#[test]
fn test_unused_inout_only_alone() {
    // module inout `y[1:0]` marked unused on its own
    let net = vec![slice_of(PortKind::ModDef, IO::InOut(2), "", "y", 1, 0)];
    assert_eq!(expression_source(PortKind::ModDef, IO::InOut(2), 1, 0, 0, &net), ExpressionSource::Unused);
}

#[test]
fn test_wire_specify_net_name() {
    // two instance inouts joined, with a net name given: a wire names the net
    let net = vec![
        slice_of(PortKind::ModInst, IO::InOut(8), "A_i", "a_io", 7, 0),
        slice_of(PortKind::ModInst, IO::InOut(8), "B_i", "b_io", 7, 0),
    ];
    assert_eq!(expression_source(PortKind::ModInst, IO::InOut(8), 0, 0, 1, &net), ExpressionSource::Wire);
}

#[test]
#[should_panic]
fn test_unused_not_allowed_on_output_to_resolve() {
    // a module output marked unused has no source
    let net = vec![slice_of(PortKind::ModDef, IO::Output(4), "", "q", 3, 0)];
    let _ = expression_source(PortKind::ModDef, IO::Output(4), 1, 0, 0, &net);
}
