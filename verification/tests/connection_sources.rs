use topstitch::connection::Wire;
use topstitch::funnel::PortKind;
use topstitch::io::IO;
use topstitch::netbook::{connections_source, slice_connections, ConnectedItem, PortSliceConnection};
use topstitch::netsource::{ExpressionSource, NetSlice, SourceError};
use topstitch::tieoff::Tieoff;

fn slice(kind: PortKind, io: IO, inst: &str, port: &str, msb: usize, lsb: usize) -> NetSlice {
    NetSlice { kind, io, inst_name: inst.to_string(), port_name: port.to_string(), msb, lsb }
}

fn conn(this: NetSlice, other: ConnectedItem) -> PortSliceConnection {
    PortSliceConnection { this, other }
}

#[test]
fn sources_from_counted_connections() {
    let ai = || slice(PortKind::ModInst, IO::Input(2), "ai", "i", 1, 0);
    let tied = vec![conn(ai(), ConnectedItem::Tieoff(Tieoff::new(vec![0b10], 2)))];
    assert_eq!(connections_source(&tied), Some(Ok(ExpressionSource::Tieoff)));

    let y = || slice(PortKind::ModDef, IO::InOut(2), "", "y", 1, 0);
    assert_eq!(connections_source(&vec![conn(y(), ConnectedItem::Unused)]), Some(Ok(ExpressionSource::Unused)));

    let b_io = || slice(PortKind::ModInst, IO::InOut(8), "B_i", "b_io", 7, 0);
    let a_io = slice(PortKind::ModInst, IO::InOut(8), "A_i", "a_io", 7, 0);
    let wire = Wire { name: "custom".to_string(), width: 8, msb: 7, lsb: 0 };
    let named = vec![conn(b_io(), ConnectedItem::PortSlice(a_io)), conn(b_io(), ConnectedItem::Wire(wire))];
    assert_eq!(connections_source(&named), Some(Ok(ExpressionSource::Wire)));

    let q = slice(PortKind::ModDef, IO::Output(4), "", "q", 3, 0);
    assert_eq!(
        connections_source(&vec![conn(q, ConnectedItem::Unused)]),
        Some(Err(SourceError::UnusedWrongDirection))
    );
    assert_eq!(connections_source(&vec![]), None);

    let i = || slice(PortKind::ModInst, IO::Input(4), "c", "i", 3, 0);
    let driven = vec![
        conn(i(), ConnectedItem::PortSlice(slice(PortKind::ModInst, IO::Output(4), "d", "o", 3, 0))),
    ];
    assert_eq!(connections_source(&driven), Some(Ok(ExpressionSource::PortSlice(1))));
}

fn bits(s: &NetSlice) -> (String, usize, usize) {
    (s.port_name.clone(), s.msb, s.lsb)
}

#[test]
fn test_tieoff_clipping_slice() {
    // port p: Input(8) tied off to 0xaa, cut down to bits 6..1
    let p = slice(PortKind::ModDef, IO::Input(8), "", "p", 7, 0);
    let cs = vec![conn(p, ConnectedItem::Tieoff(Tieoff::new(vec![0xaa], 8)))];
    let overlaps = slice_connections(&cs, 6, 1);
    assert_eq!(overlaps.len(), 1);
    assert_eq!(bits(&overlaps[0].this), ("p".to_string(), 6, 1));
    match &overlaps[0].other {
        ConnectedItem::Tieoff(t) => {
            assert_eq!(t.width, 6);
            assert_eq!(num_bigint::BigUint::from_bytes_le(&t.value), num_bigint::BigUint::from(0x15u32));
        }
        _ => panic!("expected a tie-off"),
    }
}

#[test]
fn test_slice() {
    // a[7:4] - b[15:12], a[3:0] - b[7:4], a[11:8] - b[3:0]
    let a = |msb, lsb| slice(PortKind::ModDef, IO::Output(12), "", "a", msb, lsb);
    let b = |msb, lsb| slice(PortKind::ModDef, IO::Input(16), "", "b", msb, lsb);
    let cs = vec![
        conn(a(7, 4), ConnectedItem::PortSlice(b(15, 12))),
        conn(a(3, 0), ConnectedItem::PortSlice(b(7, 4))),
        conn(a(11, 8), ConnectedItem::PortSlice(b(3, 0))),
    ];
    let other = |c: &PortSliceConnection| match &c.other {
        ConnectedItem::PortSlice(p) => bits(p),
        _ => panic!("expected a port slice"),
    };
    let overlaps = slice_connections(&cs, 5, 2);
    assert_eq!(overlaps.len(), 2);
    assert_eq!(bits(&overlaps[0].this), ("a".to_string(), 5, 4));
    assert_eq!(other(&overlaps[0]), ("b".to_string(), 13, 12));
    assert_eq!(bits(&overlaps[1].this), ("a".to_string(), 3, 2));
    assert_eq!(other(&overlaps[1]), ("b".to_string(), 7, 6));
    assert_eq!(slice_connections(&cs, 13, 12).len(), 0);
    let edge = slice_connections(&cs, 8, 8);
    assert_eq!(edge.len(), 1);
    assert_eq!(bits(&edge[0].this), ("a".to_string(), 8, 8));
    assert_eq!(other(&edge[0]), ("b".to_string(), 0, 0));
}
