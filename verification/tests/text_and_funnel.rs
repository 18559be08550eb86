use topstitch::connection::{Unused, Wire};
use topstitch::funnel::{Channel, Funnel, FunnelError, FunnelPort, PortKind, Side, Span};
use topstitch::inout::rename_inout;
use topstitch::io::IO;
use topstitch::lefparse::{clean_lef_token, parse_pin_name, PinDirection};
use topstitch::messages::{comma_list, slice_fmt};

#[test]
fn rename_inout_rewrites_marked_input_lines() {
    let text = "module m(\n  input a_INOUT_RENAME,\n  input b\n);".to_string();
    let out = rename_inout(text);
    assert_eq!(out, "module m(\n  inout a,\n  input b\n);");
}

#[test]
fn rename_inout_keeps_unmarked_text() {
    let text = "input x;\noutput y;\n".to_string();
    assert_eq!(rename_inout(text.clone()), text);
}

#[test]
fn rename_inout_only_strips_marker_on_outputs() {
    let text = "output z_INOUT_RENAME_INOUT_RENAME".to_string();
    assert_eq!(rename_inout(text), "output z");
}

#[test]
fn slice_fmt_single_and_range() {
    assert_eq!(slice_fmt(3, 3), "[3]");
    assert_eq!(slice_fmt(7, 0), "[7:0]");
}

#[test]
fn comma_list_forms() {
    let v: Vec<String> = vec![];
    assert_eq!(comma_list(&v), "");
    assert_eq!(comma_list(&["a".to_string()]), "a");
    assert_eq!(comma_list(&["a".to_string(), "b".to_string()]), "a and b");
    assert_eq!(
        comma_list(&["a".to_string(), "b".to_string(), "c".to_string()]),
        "a, b, and c"
    );
}

#[test]
fn lef_tokens() {
    assert_eq!(clean_lef_token("\"abc\";"), "abc");
    assert_eq!(clean_lef_token(";;"), "");
    assert_eq!(PinDirection::from_lef_token("INPUT"), Some(PinDirection::Input));
    assert_eq!(PinDirection::from_lef_token("OUTPUT"), Some(PinDirection::Output));
    assert_eq!(PinDirection::from_lef_token("INOUT"), Some(PinDirection::InOut));
    assert_eq!(PinDirection::from_lef_token("input"), None);
}

#[test]
fn pin_names() {
    assert_eq!(parse_pin_name("data[12]", '[', ']'), ("data".to_string(), 12));
    assert_eq!(parse_pin_name("data[+3]", '[', ']'), ("data".to_string(), 3));
    assert_eq!(parse_pin_name("data[x]", '[', ']'), ("data[x]".to_string(), 0));
    assert_eq!(parse_pin_name("data[]", '[', ']'), ("data[]".to_string(), 0));
    assert_eq!(parse_pin_name("clk", '[', ']'), ("clk".to_string(), 0));
    assert_eq!(parse_pin_name("a<1>", '<', '>'), ("a".to_string(), 1));
    assert_eq!(
        parse_pin_name("a[99999999999999999999999]", '[', ']'),
        ("a[99999999999999999999999]".to_string(), 0)
    );
}

#[test]
fn unused_and_wire() {
    let u = Unused::new();
    assert_eq!(u.slice_with_offset_and_width(3, 4), Unused {});
    assert_eq!(u.try_merge(&Unused::new()), Some(Unused {}));
    let w = Wire { name: "w".to_string(), width: 16, msb: 15, lsb: 0 };
    let lo = w.slice_with_offset_and_width(0, 4);
    let hi = w.slice_with_offset_and_width(4, 4);
    assert_eq!((lo.msb, lo.lsb), (3, 0));
    assert_eq!((hi.msb, hi.lsb), (7, 4));
    let merged = hi.try_merge(&lo).unwrap();
    assert_eq!(merged, w.slice_with_offset_and_width(0, 8));
    assert!(lo.try_merge(&hi).is_none());
}

fn port(io: IO, kind: PortKind, width: usize) -> FunnelPort {
    FunnelPort { io, kind, width }
}

#[test]
fn funnel_routes_and_fills() {
    let a_in = port(IO::Input(8), PortKind::ModInst, 8);
    let a_out = port(IO::Output(4), PortKind::ModInst, 4);
    let b_in = port(IO::Input(4), PortKind::ModInst, 4);
    let b_out = port(IO::Output(8), PortKind::ModInst, 8);
    let mut f = Funnel::new((a_out, a_in), (b_in, b_out));
    assert_eq!(f.a_in, a_in);
    assert_eq!(f.a_out, a_out);

    let drv = port(IO::Output(3), PortKind::ModInst, 3);
    let snk = port(IO::Input(3), PortKind::ModInst, 3);
    let c = f.connect(&drv, &snk);
    assert_eq!(c.channel, Channel::AToB);
    assert_eq!(c.span, Span { offset: 0, width: 3 });
    let c = f.connect(&drv, &snk);
    assert_eq!(c.span, Span { offset: 3, width: 3 });
    assert_eq!(
        f.try_connect(&drv, &snk),
        Err(FunnelError::OutOfCapacity { channel: Channel::AToB, missing: 1 })
    );
    let c = f.connect(&snk, &drv);
    assert_eq!(c.channel, Channel::BToA);
    assert_eq!(f.try_connect(&snk, &snk), Err(FunnelError::NoDriver));
    assert_eq!(f.try_connect(&drv, &drv), Err(FunnelError::TwoDrivers));
    assert_eq!(
        f.try_connect(&drv, &port(IO::Input(2), PortKind::ModInst, 2)),
        Err(FunnelError::WidthMismatch)
    );
    assert_eq!(
        f.check_full(),
        Err(FunnelError::NotFull { channel: Channel::AToB, remaining: 2 })
    );
    assert_eq!(
        f.check_b2a_full(),
        Err(FunnelError::NotFull { channel: Channel::BToA, remaining: 1 })
    );
    let rem = f.tieoff_remaining();
    assert_eq!(rem.a2b, Some((Span { offset: 6, width: 2 }, Span { offset: 6, width: 2 })));
    assert_eq!(rem.b2a, Some((Span { offset: 3, width: 1 }, Span { offset: 3, width: 1 })));
    assert_eq!(f.check_full(), Ok(()));
    assert_eq!(f.check_a2b_full(), Ok(()));
    assert_eq!(f.check_b2a_full(), Ok(()));
    f.assert_a2b_full();
    f.assert_b2a_full();
    f.assert_full();
}

#[test]
fn funnel_rejects_bad_sides() {
    let i = port(IO::Input(4), PortKind::ModDef, 4);
    let o = port(IO::Output(4), PortKind::ModDef, 4);
    let io = port(IO::InOut(4), PortKind::ModDef, 4);
    assert_eq!(Funnel::try_new((i, i), (i, o)), Err(FunnelError::BothInputs(Side::A)));
    assert_eq!(Funnel::try_new((i, o), (o, o)), Err(FunnelError::BothOutputs(Side::B)));
    assert_eq!(Funnel::try_new((io, o), (i, o)), Err(FunnelError::InOutPort(Side::A)));
    let wide = port(IO::Output(8), PortKind::ModDef, 8);
    assert_eq!(Funnel::try_new((i, o), (i, wide)), Err(FunnelError::AInBOutWidthMismatch));
}
