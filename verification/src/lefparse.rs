use vstd::prelude::*;

use crate::lefdef::spec_lef_def_pin_name;
use crate::text::{chars_of, digit_char, nat_decimal, string_of};

verus! {

broadcast use vstd::string::group_string_axioms;

/// Direction of a pin as written in a LEF `DIRECTION` statement.
#[derive(Clone, Copy, Debug, PartialEq, Eq, Structural)]
pub enum PinDirection {
    Input,
    Output,
    InOut,
}

/// The direction named by a LEF token, if it names one.
pub open spec fn spec_pin_direction(token: Seq<char>) -> Option<PinDirection> {
    if token == "INPUT"@ {
        Some(PinDirection::Input)
    } else if token == "OUTPUT"@ {
        Some(PinDirection::Output)
    } else if token == "INOUT"@ {
        Some(PinDirection::InOut)
    } else {
        None
    }
}

impl PinDirection {
    /// Reads `INPUT`, `OUTPUT` or `INOUT`; any other token names no
    /// direction.
    pub fn from_lef_token(token: &str) -> (r: Option<PinDirection>)
        ensures
            r == spec_pin_direction(token@),
    {
        let t = token.to_owned();
        if t == "INPUT".to_owned() {
            Some(PinDirection::Input)
        } else if t == "OUTPUT".to_owned() {
            Some(PinDirection::Output)
        } else if t == "INOUT".to_owned() {
            Some(PinDirection::InOut)
        } else {
            None
        }
    }
}

/// The characters that LEF tokens may carry around them.
pub open spec fn is_token_decoration(c: char) -> bool {
    c == ';' || c == '"'
}

/// `s` without its leading decoration characters.
pub open spec fn strip_leading(s: Seq<char>) -> Seq<char>
    decreases s.len(),
{
    if s.len() > 0 && is_token_decoration(s[0]) {
        strip_leading(s.drop_first())
    } else {
        s
    }
}

/// `s` without its trailing decoration characters.
pub open spec fn strip_trailing(s: Seq<char>) -> Seq<char>
    decreases s.len(),
{
    if s.len() > 0 && is_token_decoration(s.last()) {
        strip_trailing(s.drop_last())
    } else {
        s
    }
}

/// `s` without the decoration characters at either end.
pub open spec fn spec_clean_token(s: Seq<char>) -> Seq<char> {
    strip_trailing(strip_leading(s))
}

proof fn lemma_strip_leading_skip(s: Seq<char>, i: int)
    requires
        0 <= i <= s.len(),
        forall|j: int| 0 <= j < i ==> is_token_decoration(#[trigger] s[j]),
    ensures
        strip_leading(s) == strip_leading(s.skip(i)),
    decreases i,
{
    if i > 0 {
        assert(s.drop_first().skip(i - 1) =~= s.skip(i));
        lemma_strip_leading_skip(s.drop_first(), i - 1);
    } else {
        assert(s.skip(0) =~= s);
    }
}

proof fn lemma_strip_trailing_take(s: Seq<char>, i: int)
    requires
        0 <= i <= s.len(),
        forall|j: int| i <= j < s.len() ==> is_token_decoration(#[trigger] s[j]),
    ensures
        strip_trailing(s) == strip_trailing(s.take(i)),
    decreases s.len() - i,
{
    if i < s.len() {
        assert(s.drop_last().take(i) =~= s.take(i));
        lemma_strip_trailing_take(s.drop_last(), i);
    } else {
        assert(s.take(i) =~= s);
    }
}

/// The token with any `;` and `"` characters removed from both ends.
pub fn clean_lef_token(token: &str) -> (r: String)
    ensures
        r@ == spec_clean_token(token@),
{
    let chars = chars_of(token);
    let n = chars.len();
    let mut start: usize = 0;
    while start < n && (chars[start] == ';' || chars[start] == '"')
        invariant
            n == chars@.len(),
            start <= n,
            forall|j: int| 0 <= j < start ==> is_token_decoration(#[trigger] chars@[j]),
        decreases n - start,
    {
        start += 1;
    }
    proof {
        lemma_strip_leading_skip(chars@, start as int);
    }
    let ghost rest = chars@.skip(start as int);
    assert(strip_leading(rest) == rest);
    let mut end: usize = n;
    while end > start && (chars[end - 1] == ';' || chars[end - 1] == '"')
        invariant
            n == chars@.len(),
            start <= end <= n,
            rest == chars@.skip(start as int),
            forall|j: int| end - start <= j < rest.len() ==> is_token_decoration(#[trigger] rest[j]),
        decreases end - start,
    {
        end -= 1;
    }
    proof {
        lemma_strip_trailing_take(rest, end - start);
        assert(rest.take(end - start) =~= chars@.subrange(start as int, end as int));
    }
    string_of(&chars, start, end)
}

/// The value of a non-empty run of decimal digits.
pub open spec fn digits_value(d: Seq<char>) -> nat
    decreases d.len(),
{
    if d.len() == 0 {
        0
    } else {
        digits_value(d.drop_last()) * 10 + ((d.last() as u32) - ('0' as u32)) as nat
    }
}

/// Every character of `d` is an ASCII digit.
pub open spec fn all_digits(d: Seq<char>) -> bool {
    forall|i: int| 0 <= i < d.len() ==> '0' <= #[trigger] d[i] <= '9'
}

/// What `usize::from_str` gives for `s`: an optional `+`, then one or more
/// ASCII digits whose value fits in `usize`.
pub open spec fn spec_parse_usize(s: Seq<char>) -> Option<usize> {
    let d = if s.len() > 0 && s[0] == '+' {
        s.drop_first()
    } else {
        s
    };
    if d.len() > 0 && all_digits(d) && digits_value(d) <= usize::MAX {
        Some(digits_value(d) as usize)
    } else {
        None
    }
}

proof fn lemma_digits_value_grows(d: Seq<char>, i: int)
    requires
        0 <= i <= d.len(),
        all_digits(d),
    ensures
        digits_value(d.take(i)) <= digits_value(d),
    decreases d.len() - i,
{
    if i < d.len() {
        assert(d.drop_last().take(i) =~= d.take(i));
        lemma_digits_value_grows(d.drop_last(), i);
    } else {
        assert(d.take(i) =~= d);
    }
}

/// Parses `chars[start..end]` as `usize::from_str` would.
fn parse_usize(chars: &Vec<char>, start: usize, end: usize) -> (r: Option<usize>)
    requires
        start <= end <= chars@.len(),
    ensures
        r == spec_parse_usize(chars@.subrange(start as int, end as int)),
{
    let ghost s = chars@.subrange(start as int, end as int);
    let mut i = start;
    if i < end && chars[i] == '+' {
        i += 1;
    }
    let ghost d = chars@.subrange(i as int, end as int);
    assert(d =~= (if s.len() > 0 && s[0] == '+' { s.drop_first() } else { s }));
    if i == end {
        return None;
    }
    let mut value: usize = 0;
    let mut k = i;
    while k < end
        invariant
            i <= k <= end <= chars@.len(),
            s == chars@.subrange(start as int, end as int),
            d == (if s.len() > 0 && s[0] == '+' { s.drop_first() } else { s }),
            d == chars@.subrange(i as int, end as int),
            all_digits(d.take(k - i)),
            value == digits_value(d.take(k - i)),
        decreases end - k,
    {
        let c = chars[k];
        assert(d.take(k + 1 - i).drop_last() =~= d.take(k - i));
        if c < '0' || c > '9' {
            assert(d[k - i] == c);
            assert(!all_digits(d));
            return None;
        }
        let digit = (c as u32 - '0' as u32) as usize;
        if value > (usize::MAX - digit) / 10 {
            proof {
                assert(all_digits(d.take(k + 1 - i)));
                if all_digits(d) {
                    lemma_digits_value_grows(d, k + 1 - i);
                }
            }
            return None;
        }
        value = value * 10 + digit;
        k += 1;
    }
    assert(d.take(end - i) =~= d);
    Some(value)
}

/// The last position of `c` in `s`, if any.
pub open spec fn last_index_of(s: Seq<char>, c: char) -> Option<int>
    decreases s.len(),
{
    if s.len() == 0 {
        None
    } else if s.last() == c {
        Some(s.len() - 1)
    } else {
        last_index_of(s.drop_last(), c)
    }
}

/// What `parse_pin_name` gives: a name ending in `open index close`, with
/// `index` a `usize`, splits into its base and index (the last `open`
/// counts); any other name is the whole name with index 0.
pub open spec fn spec_parse_pin_name(name: Seq<char>, open_char: char, close_char: char) -> (
    Seq<char>,
    usize,
) {
    let n = name.len();
    if n > 0 && name.last() == close_char {
        match last_index_of(name, open_char) {
            Some(p) => if p + 1 < n {
                match spec_parse_usize(name.subrange(p + 1, n - 1)) {
                    Some(v) => (name.take(p), v),
                    None => (name, 0),
                }
            } else {
                (name, 0)
            },
            None => (name, 0),
        }
    } else {
        (name, 0)
    }
}

/// The last position of `c` in `s`.
fn rfind_char(s: &Vec<char>, c: char) -> (r: Option<usize>)
    ensures
        match last_index_of(s@, c) {
            Some(p) => r == Some(p as usize),
            None => r is None,
        },
        r matches Some(p) ==> p < s@.len() && last_index_of(s@, c) == Some(p as int),
{
    let mut k = s.len();
    assert(s@.take(k as int) =~= s@);
    while k > 0
        invariant
            k <= s@.len(),
            forall|j: int| k <= j < s@.len() ==> s@[j] != c,
            last_index_of(s@, c) == last_index_of(s@.take(k as int), c),
        decreases k,
    {
        assert(s@.take(k as int).drop_last() =~= s@.take(k - 1));
        if s[k - 1] == c {
            return Some(k - 1);
        }
        k -= 1;
    }
    None
}

/// Splits a bus bit name such as `data[3]` into `("data", 3)`, with the
/// given bracket characters; a name without a valid index is returned whole
/// with index 0.
pub fn parse_pin_name(name: &str, open_char: char, close_char: char) -> (r: (String, usize))
    requires
        (open_char as u32) < 128,
        (close_char as u32) < 128,
    ensures
        r.0@ == spec_parse_pin_name(name@, open_char, close_char).0,
        r.1 == spec_parse_pin_name(name@, open_char, close_char).1,
{
    let chars = chars_of(name);
    let n = chars.len();
    proof {
        assert(chars@.take(n as int) =~= chars@);
    }
    if n > 0 && chars[n - 1] == close_char {
        assert(chars@.last() == close_char);
        match rfind_char(&chars, open_char) {
            Some(p) => {
                if p + 1 < n {
                    match parse_usize(&chars, p + 1, n - 1) {
                        Some(v) => {
                            let base = string_of(&chars, 0, p);
                            assert(chars@.subrange(0, p as int) =~= chars@.take(p as int));
                            assert(last_index_of(name@, open_char) == Some(p as int));
                            assert(spec_parse_usize(name@.subrange(p + 1, n - 1)) == Some(v));
                            return (base, v);
                        },
                        None => {},
                    }
                }
            },
            None => {},
        }
    }
    assert(chars@.subrange(0, n as int) =~= chars@);
    (string_of(&chars, 0, n), 0)
}

/// The decimal text of a number is digits whose value is the number.
proof fn lemma_decimal_digits(n: nat)
    ensures
        nat_decimal(n).len() > 0,
        all_digits(nat_decimal(n)),
        digits_value(nat_decimal(n)) == n,
    decreases n,
{
    if n < 10 {
        let s = nat_decimal(n);
        let d = digit_char(n as int);
        assert(s.drop_last() =~= Seq::<char>::empty());
        assert(s.last() == d);
        assert(((d as u32) - ('0' as u32)) as nat == n);
        assert(digits_value(s.drop_last()) == 0);
    } else {
        lemma_decimal_digits(n / 10);
        let s = nat_decimal(n);
        let d = digit_char((n % 10) as int);
        assert(s.drop_last() =~= nat_decimal(n / 10));
        assert(s.last() == d);
        assert(((d as u32) - ('0' as u32)) as nat == n % 10);
        vstd::arithmetic::div_mod::lemma_fundamental_div_mod(n as int, 10);
        assert forall|i: int| 0 <= i < s.len() implies '0' <= #[trigger] s[i] <= '9' by {
            if i < s.len() - 1 {
                assert(s[i] == nat_decimal(n / 10)[i]);
            }
        }
    }
}

/// In `prefix`, the open character, then digits, the last open character
/// is the one before the digits.
proof fn lemma_last_open(prefix: Seq<char>, open_char: char, digits: Seq<char>)
    requires
        all_digits(digits),
        !('0' <= open_char <= '9'),
    ensures
        last_index_of(prefix.push(open_char) + digits, open_char) == Some(prefix.len() as int),
    decreases digits.len(),
{
    let s = prefix.push(open_char) + digits;
    if digits.len() == 0 {
        assert(s =~= prefix.push(open_char));
    } else {
        let d2 = digits.drop_last();
        assert(s.drop_last() =~= prefix.push(open_char) + d2);
        assert(s.last() == digits[digits.len() - 1]);
        assert(all_digits(d2)) by {
            assert forall|i: int| 0 <= i < d2.len() implies '0' <= #[trigger] d2[i] <= '9' by {
                assert(d2[i] == digits[i]);
            }
        }
        lemma_last_open(prefix, open_char, d2);
    }
}

/// Naming one bit of a multi-bit port and parsing the name back gives the
/// port and the bit, for brackets where the opening one is no digit and
/// differs from the closing one.
pub proof fn lemma_pin_name_round_trip(
    port_name: Seq<char>,
    port_width: usize,
    bit: usize,
    open_char: char,
    close_char: char,
)
    requires
        port_width != 1,
        !('0' <= open_char <= '9'),
        open_char != close_char,
    ensures
        spec_parse_pin_name(
            spec_lef_def_pin_name(port_name, port_width, bit, open_char, close_char),
            open_char,
            close_char,
        ) == (port_name, bit),
{
    let digits = nat_decimal(bit as nat);
    lemma_decimal_digits(bit as nat);
    let name = spec_lef_def_pin_name(port_name, port_width, bit, open_char, close_char);
    let body = port_name.push(open_char) + digits;
    assert(name =~= body.push(close_char));
    assert(name.drop_last() =~= body);
    lemma_last_open(port_name, open_char, digits);
    assert(last_index_of(name, open_char) == Some(port_name.len() as int));
    let p = port_name.len() as int;
    assert(name.subrange(p + 1, name.len() - 1) =~= digits);
    assert(name.take(p) =~= port_name);
    assert('0' <= digits[0] <= '9');
    assert(spec_parse_usize(digits) == Some(bit));
}

} // verus!
