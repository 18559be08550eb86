use topstitch::io::IO;
use topstitch::validation::{
    validate, Assignment, ConnTarget, Design, Fault, InstConnection, ModuleDef, PortRef, SliceRef, Usage,
    ValidationError,
};

fn own(port: usize, msb: usize, lsb: usize) -> SliceRef {
    SliceRef { port: PortRef::ModDef { port }, msb, lsb }
}

fn inst(inst: usize, port: usize, msb: usize, lsb: usize) -> SliceRef {
    SliceRef { port: PortRef::ModInst { inst, port }, msb, lsb }
}

fn module(usage: Usage, ports: Vec<IO>, instances: Vec<usize>) -> ModuleDef {
    ModuleDef {
        usage,
        ports,
        instances,
        unused: vec![],
        tieoffs: vec![],
        assignments: vec![],
        inst_connections: vec![],
    }
}

/// A leaf that passes its 4-bit input `a` to its output `y`, and a top
/// that feeds its input `x` through the leaf to its output `z`.
fn design() -> Design {
    let mut leaf = module(Usage::EmitDefinitionAndDescend, vec![IO::Input(4), IO::Output(4)], vec![]);
    leaf.assignments.push(Assignment { lhs: own(1, 3, 0), rhs: own(0, 3, 0), pipeline_clk: None });
    let mut top = module(Usage::EmitDefinitionAndDescend, vec![IO::Input(4), IO::Output(4)], vec![0]);
    top.inst_connections.push(InstConnection {
        inst_slice: inst(0, 0, 3, 0),
        connected_to: ConnTarget::Slice(own(0, 3, 0)),
    });
    top.inst_connections.push(InstConnection {
        inst_slice: inst(0, 1, 3, 0),
        connected_to: ConnTarget::Slice(own(1, 3, 0)),
    });
    Design { modules: vec![leaf, top] }
}

fn err(module: usize, fault: Fault) -> Result<(), ValidationError> {
    Err(ValidationError { module, fault })
}

#[test]
fn a_fully_connected_design_validates() {
    assert_eq!(validate(&design(), 1), Ok(()));
    assert_eq!(validate(&design(), 0), Ok(()));
}

#[test]
fn an_undriven_output_is_reported() {
    let mut d = design();
    d.modules[1].inst_connections.pop();
    assert_eq!(validate(&d, 1), err(1, Fault::Undriven(PortRef::ModDef { port: 1 })));
}

#[test]
fn an_unused_instance_output_is_reported() {
    let mut d = design();
    d.modules[1].inst_connections[1].connected_to = ConnTarget::Wire(4);
    d.modules[1].tieoffs.push(own(1, 3, 0));
    assert_eq!(validate(&d, 1), Ok(()));
    d.modules[1].inst_connections.pop();
    assert_eq!(validate(&d, 1), err(1, Fault::Unused(PortRef::ModInst { inst: 0, port: 1 })));
    d.modules[1].unused.push(inst(0, 1, 3, 0));
    assert_eq!(validate(&d, 1), Ok(()));
}

#[test]
fn faults_in_a_submodule_come_first() {
    let mut d = design();
    d.modules[0].assignments.clear();
    d.modules[1].inst_connections.pop();
    assert_eq!(validate(&d, 1), err(0, Fault::Undriven(PortRef::ModDef { port: 1 })));
}

#[test]
fn validation_descends_only_where_asked() {
    let mut d = design();
    d.modules[0].assignments.clear();
    d.modules[0].usage = Usage::EmitStubAndStop;
    assert_eq!(validate(&d, 1), Ok(()));
    d.modules[1].inst_connections.clear();
    d.modules[1].usage = Usage::EmitNothingAndStop;
    assert_eq!(validate(&d, 1), Ok(()));
    d.modules[1].usage = Usage::EmitDefinitionAndStop;
    assert_eq!(validate(&d, 1), Ok(()));
}

#[test]
fn double_drivers_and_unused_uses_are_reported() {
    let mut d = design();
    d.modules[1].tieoffs.push(own(1, 1, 1));
    assert_eq!(validate(&d, 1), err(1, Fault::MultiplyDriven(own(1, 3, 0))));
    let mut d = design();
    d.modules[1].unused.push(own(0, 0, 0));
    assert_eq!(validate(&d, 1), err(1, Fault::UnusedButUsed(own(0, 3, 0))));
    let mut d = design();
    d.modules[1].unused.push(own(0, 2, 0));
    d.modules[1].unused.push(own(0, 3, 2));
    assert_eq!(validate(&d, 1), err(1, Fault::MultiplyUnused(own(0, 3, 2))));
}

#[test]
fn malformed_items_are_reported() {
    let mut d = design();
    d.modules[1].unused.push(own(1, 3, 0));
    assert_eq!(validate(&d, 1), err(1, Fault::UnusedNotDriver(own(1, 3, 0))));
    let mut d = design();
    d.modules[1].tieoffs.push(own(0, 4, 0));
    assert_eq!(validate(&d, 1), err(1, Fault::InvalidSlice(own(0, 4, 0))));
    let mut d = design();
    d.modules[1].tieoffs.push(own(0, 3, 0));
    assert_eq!(validate(&d, 1), err(1, Fault::TieoffNotDrivable(own(0, 3, 0))));
    let mut d = design();
    d.modules[1].inst_connections[0].connected_to = ConnTarget::Wire(3);
    assert_eq!(validate(&d, 1), err(1, Fault::ConnWidthMismatch(inst(0, 0, 3, 0))));
    let mut d = design();
    d.modules[0].assignments[0].rhs = own(0, 2, 0);
    assert_eq!(validate(&d, 1), err(0, Fault::AssignWidthMismatch(own(1, 3, 0))));
    let mut d = design();
    d.modules[0].assignments[0].lhs = own(0, 3, 0);
    assert_eq!(validate(&d, 1), err(0, Fault::LhsNotDrivable(own(0, 3, 0))));
}

#[test]
fn an_unused_pipeline_clock_is_reported() {
    let mut d = design();
    d.modules[0].ports.push(IO::Input(1));
    d.modules[0].assignments[0].pipeline_clk = Some(2);
    d.modules[0].unused.push(own(2, 0, 0));
    assert_eq!(validate(&d, 0), err(0, Fault::PipelineClockUnused(2)));
    d.modules[0].unused.clear();
    assert_eq!(validate(&d, 0), Ok(()));
}
