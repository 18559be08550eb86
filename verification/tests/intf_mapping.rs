use topstitch::intfmap::{intf_mapping_from_name_underscore, intf_mapping_from_prefixes, IntfError};

fn ports(v: &[(&str, usize)]) -> Vec<(String, usize)> {
    v.iter().map(|(n, w)| (n.to_string(), *w)).collect()
}

fn strings(v: &[&str]) -> Vec<String> {
    v.iter().map(|s| s.to_string()).collect()
}

fn entries(m: &[(String, (String, usize, usize))]) -> Vec<(&str, &str, usize, usize)> {
    m.iter().map(|(f, (p, msb, lsb))| (f.as_str(), p.as_str(), *msb, *lsb)).collect()
}

#[test]
fn interface_from_prefix_strips_it() {
    let p = ports(&[("a_data", 8), ("a_valid", 1), ("b_data", 8), ("b_valid", 1)]);
    let m = intf_mapping_from_prefixes(&p, &strings(&["a_"]), true).unwrap();
    assert_eq!(entries(&m), vec![("data", "a_data", 7, 0), ("valid", "a_valid", 0, 0)]);
    let m = intf_mapping_from_name_underscore(&p, "b").unwrap();
    assert_eq!(entries(&m), vec![("data", "b_data", 7, 0), ("valid", "b_valid", 0, 0)]);
}

#[test]
fn interface_from_prefixes_keeps_names() {
    let p = ports(&[("a_data", 8), ("a_valid", 1), ("b_data", 8), ("b_valid", 1), ("c", 2)]);
    let m = intf_mapping_from_prefixes(&p, &strings(&["a_", "b_"]), false).unwrap();
    assert_eq!(
        entries(&m),
        vec![
            ("a_data", "a_data", 7, 0),
            ("a_valid", "a_valid", 0, 0),
            ("b_data", "b_data", 7, 0),
            ("b_valid", "b_valid", 0, 0)
        ]
    );
    let m = intf_mapping_from_prefixes(&p, &strings(&["a_", "b_"]), true).unwrap();
    assert_eq!(entries(&m), vec![("data", "b_data", 7, 0), ("valid", "b_valid", 0, 0)]);
    assert_eq!(
        intf_mapping_from_prefixes(&p, &strings(&["z_"]), true),
        Err(IntfError::EmptyInterface)
    );
}
