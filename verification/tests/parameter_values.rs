use topstitch::parameters::{sv_parameter_values, NegativeParameter, ParamValue};

fn val(n: u128) -> ParamValue {
    ParamValue { negative: false, magnitude: n.to_le_bytes().to_vec() }
}

fn neg(n: u128) -> ParamValue {
    ParamValue { negative: true, magnitude: n.to_le_bytes().to_vec() }
}

fn entries(v: Vec<(&str, ParamValue)>) -> Vec<(String, ParamValue)> {
    v.into_iter().map(|(k, x)| (k.to_string(), x)).collect()
}

fn texts(v: Vec<(&str, &str)>) -> Vec<(String, String)> {
    v.into_iter().map(|(k, x)| (k.to_string(), x.to_string())).collect()
}

#[test]
fn overrides_merge_in_place_and_format_with_their_bit_width() {
    let existing = entries(vec![("WIDTH", val(32)), ("DEPTH", val(4))]);
    let overrides = entries(vec![("WIDTH", val(64)), ("MODE", val(0))]);
    assert_eq!(
        sv_parameter_values(&existing, &overrides),
        Ok(texts(vec![("WIDTH", "7'd64"), ("DEPTH", "3'd4"), ("MODE", "0'd0")]))
    );
    let big = entries(vec![("BIG", val(1u128 << 70)), ("ZERO", neg(0))]);
    assert_eq!(
        sv_parameter_values(&big, &vec![]),
        Ok(texts(vec![("BIG", "71'd1180591620717411303424"), ("ZERO", "0'd0")]))
    );
    let short = entries(vec![("B", ParamValue { negative: false, magnitude: vec![] })]);
    assert_eq!(sv_parameter_values(&vec![], &short), Ok(texts(vec![("B", "0'd0")])));
}

#[test]
fn a_negative_value_is_refused() {
    let existing = entries(vec![("WIDTH", val(32)), ("DEPTH", val(4))]);
    let overrides = entries(vec![("DEPTH", neg(3)), ("LAST", neg(1))]);
    assert_eq!(
        sv_parameter_values(&existing, &overrides),
        Err(NegativeParameter { name: "DEPTH".to_string() })
    );
}
