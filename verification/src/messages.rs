use vstd::prelude::*;

use crate::text::{nat_decimal, push_str, push_usize};

verus! {

/// The bit range `[msb:lsb]`, or `[i]` for a single bit.
pub open spec fn spec_slice_fmt(msb: usize, lsb: usize) -> Seq<char> {
    if msb == lsb {
        "["@ + nat_decimal(msb as nat) + "]"@
    } else {
        "["@ + nat_decimal(msb as nat) + ":"@ + nat_decimal(lsb as nat) + "]"@
    }
}

/// Formats a bit range for diagnostics: `[msb:lsb]`, or `[i]` when `msb`
/// and `lsb` are the same bit.
pub fn slice_fmt(msb: usize, lsb: usize) -> (r: String)
    ensures
        r@ == spec_slice_fmt(msb, lsb),
{
    let mut s = String::new();
    push_str(&mut s, "[");
    push_usize(&mut s, msb);
    if msb != lsb {
        push_str(&mut s, ":");
        push_usize(&mut s, lsb);
    }
    push_str(&mut s, "]");
    s
}

/// `items` joined with `sep` between neighbours.
pub open spec fn join_with(items: Seq<Seq<char>>, sep: Seq<char>) -> Seq<char>
    decreases items.len(),
{
    if items.len() == 0 {
        Seq::empty()
    } else if items.len() == 1 {
        items[0]
    } else {
        join_with(items.drop_last(), sep) + sep + items.last()
    }
}

/// An English list: `a`, `a and b`, or `a, b, and c`.
pub open spec fn spec_comma_list(items: Seq<Seq<char>>) -> Seq<char> {
    let n = items.len();
    if n == 0 {
        Seq::empty()
    } else if n == 1 {
        items[0]
    } else if n == 2 {
        items[0] + " and "@ + items[1]
    } else {
        join_with(items.take(n - 1), ", "@) + ", and "@ + items[n - 1]
    }
}

/// The texts of `items`.
pub open spec fn texts(items: Seq<String>) -> Seq<Seq<char>> {
    items.map_values(|s: String| s@)
}

/// Lists `items` in English for diagnostics: one item alone, two joined by
/// `and`, more separated by commas with `and` before the last.
pub fn comma_list(items: &[String]) -> (r: String)
    ensures
        r@ == spec_comma_list(texts(items@)),
{
    let n = items.len();
    let ghost t = texts(items@);
    let mut out = String::new();
    if n == 0 {
        return out;
    }
    if n == 1 {
        push_str(&mut out, items[0].as_str());
        return out;
    }
    if n == 2 {
        push_str(&mut out, items[0].as_str());
        push_str(&mut out, " and ");
        push_str(&mut out, items[1].as_str());
        return out;
    }
    push_str(&mut out, items[0].as_str());
    assert(out@ == join_with(t.take(1), ", "@)) by {
        assert(t.take(1).len() == 1);
    }
    for k in 1..n - 1
        invariant
            3 <= n == items@.len(),
            t == texts(items@),
            out@ == join_with(t.take(k as int), ", "@),
    {
        push_str(&mut out, ", ");
        push_str(&mut out, items[k].as_str());
        assert(t.take(k + 1).drop_last() =~= t.take(k as int));
    }
    push_str(&mut out, ", and ");
    push_str(&mut out, items[n - 1].as_str());
    out
}

} // verus!
