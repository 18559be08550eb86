use vstd::prelude::*;

use crate::parserports::{first_key, ordered_insert, text_entries_view};
use crate::text::{nat_decimal, push_str, push_u64};

verus! {

/// The value of little-endian bytes.
pub open spec fn le_value(bytes: Seq<u8>) -> nat
    decreases bytes.len(),
{
    if bytes.len() == 0 {
        0
    } else {
        bytes[0] as nat + 256 * le_value(bytes.drop_first())
    }
}

/// The fewest bits that express `n` (none for zero).
pub open spec fn bit_length(n: nat) -> nat
    decreases n,
{
    if n == 0 {
        0
    } else {
        1 + bit_length(n / 2)
    }
}

/// A parameter value: an integer of any size, as its sign and the
/// little-endian bytes of its magnitude.
pub struct ParamValue {
    pub negative: bool,
    pub magnitude: Vec<u8>,
}

/// A parameter value as plain values: sign and magnitude bytes.
pub type ParamValueView = (bool, Seq<u8>);

pub open spec fn param_view(v: ParamValue) -> ParamValueView {
    (v.negative, v.magnitude@)
}

/// Parameter entries with their values as plain values.
pub open spec fn params_view(v: Seq<(String, ParamValue)>) -> Seq<(Seq<char>, ParamValueView)> {
    v.map_values(|e: (String, ParamValue)| (e.0@, param_view(e.1)))
}

/// The value is below zero.
pub open spec fn is_negative(v: ParamValueView) -> bool {
    v.0 && le_value(v.1) > 0
}

/// A value as a SystemVerilog literal: `{bits}'d{value}`, the width being
/// the fewest bits that express the value.
pub open spec fn sv_literal(v: ParamValueView) -> Seq<char> {
    nat_decimal(bit_length(le_value(v.1))) + "'d"@ + nat_decimal(le_value(v.1))
}

/// The existing parameters with the overrides applied in order: an
/// overridden parameter keeps its place and takes the new value, a new one
/// goes last.
pub open spec fn merged_params(
    existing: Seq<(Seq<char>, ParamValueView)>,
    overrides: Seq<(Seq<char>, ParamValueView)>,
) -> Seq<(Seq<char>, ParamValueView)>
    decreases overrides.len(),
{
    if overrides.len() == 0 {
        existing
    } else {
        let prev = merged_params(existing, overrides.drop_last());
        ordered_insert(prev, overrides.last().0, overrides.last().1)
    }
}

/// Each parameter with its value as a literal, or the first parameter whose
/// value is negative.
pub open spec fn literals(params: Seq<(Seq<char>, ParamValueView)>) -> Result<Seq<(Seq<char>, Seq<char>)>, Seq<char>>
    decreases params.len(),
{
    if params.len() == 0 {
        Ok(Seq::empty())
    } else {
        match literals(params.drop_last()) {
            Err(n) => Err(n),
            Ok(prev) => {
                let (name, v) = params.last();
                if is_negative(v) {
                    Err(name)
                } else {
                    Ok(prev.push((name, sv_literal(v))))
                }
            },
        }
    }
}

/// The parameter values handed to the Verilog front end when a module is
/// parameterized.
pub open spec fn spec_sv_parameter_values(
    existing: Seq<(Seq<char>, ParamValueView)>,
    overrides: Seq<(Seq<char>, ParamValueView)>,
) -> Result<Seq<(Seq<char>, Seq<char>)>, Seq<char>> {
    literals(merged_params(existing, overrides))
}

/// A parameter whose value is below zero, which has no literal yet.
#[derive(Debug, Clone, PartialEq, Eq)]
pub struct NegativeParameter {
    pub name: String,
}

/// The fewest bits that express the magnitude: `BigUint::from_bytes_le`
/// then `BigUint::bits`, which the num-bigint source defines as the value
/// of the little-endian bytes and the bit length of a value.
#[verifier::external_body]
pub(crate) fn magnitude_bits(magnitude: &Vec<u8>) -> (r: u64)
    ensures
        r == bit_length(le_value(magnitude@)),
{
    num_bigint::BigUint::from_bytes_le(magnitude.as_slice()).bits()
}

/// The decimal text of the magnitude: `BigUint::from_bytes_le` then its
/// `Display`, the digits of the value in base ten without sign or leading
/// zeros.
#[verifier::external_body]
fn magnitude_decimal(magnitude: &Vec<u8>) -> (r: String)
    ensures
        r@ == nat_decimal(le_value(magnitude@)),
{
    num_bigint::BigUint::from_bytes_le(magnitude.as_slice()).to_string()
}

fn copy_value(v: &ParamValue) -> (r: ParamValue)
    ensures
        param_view(r) == param_view(*v),
{
    ParamValue { negative: v.negative, magnitude: v.magnitude.clone() }
}

/// Copies parameter entries.
fn copy_params(v: &Vec<(String, ParamValue)>) -> (r: Vec<(String, ParamValue)>)
    ensures
        params_view(r@) == params_view(v@),
{
    let mut out: Vec<(String, ParamValue)> = Vec::new();
    for i in 0..v.len()
        invariant
            out@.len() == i,
            forall|j: int| 0 <= j < i ==> #[trigger] params_view(out@)[j] == params_view(v@)[j],
    {
        let ghost before = out@;
        let key = v[i].0.clone();
        let val = copy_value(&v[i].1);
        out.push((key, val));
        assert forall|j: int| 0 <= j < i + 1 implies #[trigger] params_view(out@)[j] == params_view(v@)[j] by {
            if j < i {
                assert(out@[j] == before[j]);
                assert(params_view(before)[j] == params_view(v@)[j]);
            } else {
                assert(out@[j] == (key, val));
            }
        }
    }
    assert(params_view(out@) =~= params_view(v@));
    out
}

/// The values to give the Verilog front end for a module whose parameters
/// `existing` are overridden by `overrides`: every parameter, in order, as
/// a literal `{bits}'d{value}`. Fails at the first negative value.
pub fn sv_parameter_values(
    existing: &Vec<(String, ParamValue)>,
    overrides: &Vec<(String, ParamValue)>,
) -> (r: Result<Vec<(String, String)>, NegativeParameter>)
    ensures
        match r {
            Ok(v) => spec_sv_parameter_values(params_view(existing@), params_view(overrides@))
                == Ok::<Seq<(Seq<char>, Seq<char>)>, Seq<char>>(text_entries_view(v@)),
            Err(e) => spec_sv_parameter_values(params_view(existing@), params_view(overrides@))
                == Err::<Seq<(Seq<char>, Seq<char>)>, Seq<char>>(e.name@),
        },
{
    // merged entries, with values as plain values
    let mut merged: Vec<(String, ParamValue)> = copy_params(existing);
    let ghost ov = params_view(overrides@);
    assert(ov.take(0) =~= Seq::<(Seq<char>, ParamValueView)>::empty());
    for i in 0..overrides.len()
        invariant
            ov == params_view(overrides@),
            params_view(merged@) == merged_params(params_view(existing@), ov.take(i as int)),
    {
        assert(ov.take(i + 1).drop_last() =~= ov.take(i as int));
        assert(ov.take(i + 1).last() == ov[i as int]);
        let v = copy_value(&overrides[i].1);
        insert_param(&mut merged, &overrides[i].0, v);
    }
    assert(ov.take(ov.len() as int) =~= ov);
    let ghost mv = params_view(merged@);
    let mut out: Vec<(String, String)> = Vec::new();
    assert(mv.take(0) =~= Seq::<(Seq<char>, ParamValueView)>::empty());
    assert(text_entries_view(out@) =~= Seq::<(Seq<char>, Seq<char>)>::empty());
    for k in 0..merged.len()
        invariant
            mv == params_view(merged@),
            mv == merged_params(params_view(existing@), params_view(overrides@)),
            literals(mv.take(k as int)) == Ok::<Seq<(Seq<char>, Seq<char>)>, Seq<char>>(text_entries_view(out@)),
    {
        assert(mv.take(k + 1).drop_last() =~= mv.take(k as int));
        assert(mv.take(k + 1).last() == mv[k as int]);
        let entry = &merged[k];
        let bits = magnitude_bits(&entry.1.magnitude);
        if entry.1.negative && bits != 0 {
            proof {
                assert(mv[k as int].1 == param_view(entry.1));
                assert(is_negative(mv[k as int].1));
                assert(literals(mv.take(k + 1)) == Err::<Seq<(Seq<char>, Seq<char>)>, Seq<char>>(mv[k as int].0));
                lemma_literals_stops(mv, k as int);
            }
            return Err(NegativeParameter { name: entry.0.clone() });
        }
        let mut text = String::new();
        push_u64(&mut text, bits);
        push_str(&mut text, "'d");
        let digits = magnitude_decimal(&entry.1.magnitude);
        push_str(&mut text, digits.as_str());
        proof {
            reveal_strlit("'d");
        }
        let ghost before = text_entries_view(out@);
        out.push((entry.0.clone(), text));
        assert(text_entries_view(out@) =~= before.push((mv[k as int].0, sv_literal(mv[k as int].1))));
    }
    assert(mv.take(mv.len() as int) =~= mv);
    Ok(out)
}

/// Sets parameter `key` to `v`, keeping keys in order of first insertion.
fn insert_param(merged: &mut Vec<(String, ParamValue)>, key: &String, v: ParamValue)
    ensures
        params_view(final(merged)@) == ordered_insert(params_view(old(merged)@), key@, param_view(v)),
{
    let ghost pv = params_view(merged@);
    let n = merged.len();
    let mut j: usize = 0;
    while j < n
        invariant
            n == merged@.len(),
            j <= n,
            pv == params_view(merged@),
            pv == params_view(old(merged)@),
            first_key(pv, key@, 0) == first_key(pv, key@, j as int),
        decreases n - j,
    {
        assert(pv[j as int].0 == merged@[j as int].0@);
        if merged[j].0 == *key {
            assert(first_key(pv, key@, j as int) == Some(j as int));
            let ghost vv = param_view(v);
            merged.set(j, (key.clone(), v));
            assert(params_view(merged@) =~= pv.update(j as int, (key@, vv)));
            return;
        }
        j += 1;
    }
    let ghost vv = param_view(v);
    merged.push((key.clone(), v));
    assert(params_view(merged@) =~= pv.push((key@, vv)));
}

/// Once a prefix meets a negative value, all the parameters do.
proof fn lemma_literals_stops(params: Seq<(Seq<char>, ParamValueView)>, k: int)
    requires
        0 <= k < params.len(),
        literals(params.take(k + 1)) is Err,
    ensures
        literals(params) == literals(params.take(k + 1)),
    decreases params.len() - k,
{
    if k + 1 < params.len() {
        assert(params.drop_last().take(k + 1) =~= params.take(k + 1));
        lemma_literals_stops(params.drop_last(), k);
    } else {
        assert(params.take(k + 1) =~= params);
    }
}

} // verus!
