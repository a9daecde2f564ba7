use vstd::prelude::*;

verus! {

/// The decimal digit character for d in [0, 10).
pub open spec fn digit_char(d: int) -> char {
    if d == 0 { '0' }
    else if d == 1 { '1' }
    else if d == 2 { '2' }
    else if d == 3 { '3' }
    else if d == 4 { '4' }
    else if d == 5 { '5' }
    else if d == 6 { '6' }
    else if d == 7 { '7' }
    else if d == 8 { '8' }
    else { '9' }
}

/// The decimal digits of a non-negative number, most significant first.
pub open spec fn dec_digits(n: nat) -> Seq<char>
    decreases n,
{
    if n < 10 {
        seq![digit_char(n as int)]
    } else {
        dec_digits(n / 10).push(digit_char((n % 10) as int))
    }
}

/// The decimal rendering of an integer, with a leading minus sign when
/// negative.
pub open spec fn dec_int(n: int) -> Seq<char> {
    if n < 0 {
        seq!['-'] + dec_digits((-n) as nat)
    } else {
        dec_digits(n as nat)
    }
}

/// True of the code points that are Unicode scalar values, the ones a char
/// can hold.
pub open spec fn is_unicode_scalar(v: u32) -> bool {
    v < 0xD800 || (0xE000 <= v && v <= 0x10FFFF)
}

/// The char whose code point is v; meaningful only when v is a Unicode
/// scalar value.
pub open spec fn char_for(v: u32) -> char {
    v as char
}

/// Relies on char::from_u32 of std: Some exactly on Unicode scalar values,
/// and the returned char carries the given code point.
pub assume_specification [ char::from_u32 ](v: u32) -> (r: Option<char>)
    ensures
        r is Some <==> is_unicode_scalar(v),
        r matches Some(c) ==> c as u32 == v,
;

/// Relies on String::push of std: appends one char to the string.
pub assume_specification [ String::push ](s: &mut String, c: char)
    ensures
        final(s)@ == old(s)@.push(c),
;

/// Relies on String::push_str of std: appends the slice's chars to the
/// string.
pub assume_specification [ String::push_str ](s: &mut String, other: &str)
    ensures
        final(s)@ == old(s)@ + other@,
;

fn digit_to_char(d: u64) -> (c: char)
    requires
        d < 10,
    ensures
        c == digit_char(d as int),
{
    match d {
        0 => '0',
        1 => '1',
        2 => '2',
        3 => '3',
        4 => '4',
        5 => '5',
        6 => '6',
        7 => '7',
        8 => '8',
        _ => '9',
    }
}

fn push_dec_digits(s: &mut String, m: u64)
    ensures
        final(s)@ == old(s)@ + dec_digits(m as nat),
    decreases m,
{
    if m < 10 {
        s.push(digit_to_char(m));
        assert(s@ =~= old(s)@ + dec_digits(m as nat));
    } else {
        push_dec_digits(s, m / 10);
        let d = m % 10;
        s.push(digit_to_char(d));
        assert(s@ =~= old(s)@ + dec_digits(m as nat));
    }
}

/// Renders a number in decimal, with a minus sign when negative.
pub fn i32_to_string(n: i32) -> (s: String)
    ensures
        s@ == dec_int(n as int),
{
    let mut s = String::new();
    if n < 0 {
        s.push('-');
        let m: u64 = (-(n as i64)) as u64;
        push_dec_digits(&mut s, m);
        assert(s@ =~= dec_int(n as int));
    } else {
        push_dec_digits(&mut s, n as u64);
    }
    s
}

/// Renders a non-negative machine word in decimal.
pub fn usize_to_string(n: usize) -> (s: String)
    ensures
        s@ == dec_digits(n as nat),
{
    let mut s = String::new();
    push_dec_digits(&mut s, n as u64);
    proof {
        assert(s@ =~= dec_digits(n as nat));
    }
    s
}

/// Appends the char with the given code point, when it names one; appends
/// nothing for negative values and non-scalar code points.
pub fn push_code_point(s: &mut String, v: i32)
    ensures
        final(s)@ == old(s)@ + render_code_point(v),
{
    if v >= 0 {
        match char::from_u32(v as u32) {
            Some(c) => {
                s.push(c);
                proof {
                    vstd::utf8::char_u32_cast(c, v as u32);
                }
                assert(s@ =~= old(s)@ + render_code_point(v));
            }
            None => {
                assert(s@ =~= old(s)@ + render_code_point(v));
            }
        }
    } else {
        assert(s@ =~= old(s)@ + render_code_point(v));
    }
}

/// What a code point renders as: one char when it is a scalar value,
/// nothing otherwise.
pub open spec fn render_code_point(v: i32) -> Seq<char> {
    if v >= 0 && is_unicode_scalar(v as u32) {
        seq![char_for(v as u32)]
    } else {
        Seq::empty()
    }
}


/// The whitespace that separates number tokens.
pub open spec fn is_sep(c: char) -> bool {
    c == ' ' || c == '\t' || c == '\n' || c == '\r'
}

/// A decimal digit character.
pub open spec fn is_digit(c: char) -> bool {
    48 <= c as u32 && c as u32 <= 57
}

/// The numeric value of a digit character.
pub open spec fn digit_val(c: char) -> int {
    c as u32 - 48
}

/// The value of a digit string, most significant first.
pub open spec fn digits_value(s: Seq<char>) -> int
    decreases s.len(),
{
    if s.len() == 0 {
        0
    } else {
        digits_value(s.drop_last()) * 10 + digit_val(s.last())
    }
}

/// Whether every character is a decimal digit.
pub open spec fn all_digits(s: Seq<char>) -> bool {
    forall|i: int| 0 <= i < s.len() ==> is_digit(#[trigger] s[i])
}

/// What a token parses to as a 32-bit integer: an optional sign, at least
/// one digit, and a value within the 32-bit range; anything else is None.
pub open spec fn parse_i32_spec(t: Seq<char>) -> Option<i32> {
    let signed = t.len() > 0 && (t[0] == '-' || t[0] == '+');
    let neg = t.len() > 0 && t[0] == '-';
    let mag = if signed { t.drop_first() } else { t };
    if mag.len() == 0 || !all_digits(mag) {
        None
    } else {
        let v = if neg { -digits_value(mag) } else { digits_value(mag) };
        if i32::MIN <= v <= i32::MAX {
            Some(v as i32)
        } else {
            None
        }
    }
}

/// Where the token starting at i ends: the first separator at or after i.
pub open spec fn token_end(s: Seq<char>, i: int) -> int
    decreases s.len() - i,
    when 0 <= i <= s.len()
{
    if i >= s.len() || is_sep(s[i]) {
        i
    } else {
        token_end(s, i + 1)
    }
}

proof fn lemma_token_end_bounds(s: Seq<char>, i: int)
    requires
        0 <= i <= s.len(),
    ensures
        i <= token_end(s, i) <= s.len(),
        i < s.len() && !is_sep(s[i]) ==> token_end(s, i) >= i + 1,
    decreases s.len() - i,
{
    if i < s.len() && !is_sep(s[i]) {
        lemma_token_end_bounds(s, i + 1);
    }
}

/// The numbers parsed from the characters at or after position i: tokens are
/// split on whitespace and each token that parses as a 32-bit integer
/// contributes its value, in order.
pub open spec fn numbers_from(s: Seq<char>, i: int) -> Seq<i32>
    decreases s.len() - i,
    when 0 <= i <= s.len()
    via numbers_from_decreases
{
    if i >= s.len() {
        Seq::empty()
    } else if is_sep(s[i]) {
        numbers_from(s, i + 1)
    } else {
        let j = token_end(s, i);
        let rest = numbers_from(s, j);
        match parse_i32_spec(s.subrange(i, j)) {
            Some(n) => seq![n] + rest,
            None => rest,
        }
    }
}

#[via_fn]
proof fn numbers_from_decreases(s: Seq<char>, i: int) {
    if 0 <= i <= s.len() && i < s.len() && !is_sep(s[i]) {
        lemma_token_end_bounds(s, i);
    }
}

proof fn lemma_digits_value_nonneg(s: Seq<char>)
    requires
        all_digits(s),
    ensures
        digits_value(s) >= 0,
    decreases s.len(),
{
    if s.len() > 0 {
        assert(all_digits(s.drop_last()));
        lemma_digits_value_nonneg(s.drop_last());
    }
}

fn sep_exec(c: char) -> (r: bool)
    ensures
        r == is_sep(c),
{
    c == ' ' || c == '\t' || c == '\n' || c == '\r'
}

/// Parses one token (the characters from i to j) as a 32-bit integer.
#[verifier::loop_isolation(false)]
fn parse_token(chars: &Vec<char>, i: usize, j: usize) -> (r: Option<i32>)
    requires
        i < j <= chars@.len(),
    ensures
        r == parse_i32_spec(chars@.subrange(i as int, j as int)),
{
    let ghost t = chars@.subrange(i as int, j as int);
    let c0 = chars[i];
    let neg = c0 == '-';
    let signed = neg || c0 == '+';
    let start = if signed { i + 1 } else { i };
    let ghost mag = if signed { t.drop_first() } else { t };
    proof {
        assert(mag =~= chars@.subrange(start as int, j as int));
    }
    if start == j {
        return None;
    }
    // the magnitude, clamped at 2^32 so overflow is detected exactly
    let mut acc: u64 = 0;
    let mut k: usize = start;
    while k < j
        invariant
            start <= k <= j,
            mag == chars@.subrange(start as int, j as int),
            all_digits(chars@.subrange(start as int, k as int)),
            ({
                let v = digits_value(chars@.subrange(start as int, k as int));
                (acc == v && v < 0x1_0000_0000) || (acc == 0x1_0000_0000u64 && v >= 0x1_0000_0000)
            }),
        decreases j - k,
    {
        let ghost prefix = chars@.subrange(start as int, k as int);
        let c = chars[k];
        let code = c as u32;
        if code < 48 || code > 57 {
            proof {
                assert(mag[k - start] == c);
                assert(!all_digits(mag));
            }
            return None;
        }
        let d: u64 = (code - 48) as u64;
        let ghost prefix2 = chars@.subrange(start as int, k as int + 1);
        proof {
            assert(prefix2.drop_last() =~= prefix);
            assert(prefix2.last() == c);
            lemma_digits_value_nonneg(prefix);
            assert(digits_value(prefix2) == digits_value(prefix) * 10 + digit_val(c));
            if digits_value(prefix) >= 0x1_0000_0000 {
                assert(digits_value(prefix) * 10 >= digits_value(prefix)) by (nonlinear_arith)
                    requires digits_value(prefix) >= 0;
            }
        }
        if acc >= 0x1_0000_0000u64 {
            // the value is already beyond the 32-bit range; it stays there
        } else {
            acc = acc * 10 + d;
            if acc >= 0x1_0000_0000u64 {
                acc = 0x1_0000_0000u64;
            }
        }
        k = k + 1;
    }
    proof {
        assert(chars@.subrange(start as int, j as int) =~= mag);
        lemma_digits_value_nonneg(mag);
    }
    if neg {
        if acc <= 0x8000_0000u64 {
            Some((-(acc as i64)) as i32)
        } else {
            None
        }
    } else {
        if acc <= 0x7FFF_FFFFu64 {
            Some(acc as i32)
        } else {
            None
        }
    }
}

/// Parses whitespace-separated 32-bit integers out of a character sequence,
/// skipping tokens that do not parse.
#[verifier::loop_isolation(false)]
pub fn parse_numbers(chars: &Vec<char>) -> (r: Vec<i32>)
    ensures
        r@ == numbers_from(chars@, 0),
{
    let ghost s = chars@;
    let mut r: Vec<i32> = Vec::new();
    let mut i: usize = 0;
    while i < chars.len()
        invariant
            i <= chars@.len(),
            numbers_from(s, 0) == r@ + numbers_from(s, i as int),
        decreases chars@.len() - i,
    {
        let c = chars[i];
        if sep_exec(c) {
            i = i + 1;
            continue;
        }
        // scan to the token's end
        let mut j: usize = i;
        while j < chars.len()
            invariant
                i <= j <= chars@.len(),
                token_end(s, i as int) == token_end(s, j as int),
                forall|k: int| i <= k < j ==> !is_sep(#[trigger] s[k]),
            decreases chars@.len() - j,
        {
            if sep_exec(chars[j]) {
                break;
            }
            j = j + 1;
        }
        proof {
            assert(token_end(s, i as int) == j as int);
        }
        match parse_token(chars, i, j) {
            Some(n) => {
                r.push(n);
                proof {
                    assert(numbers_from(s, 0) =~= r@ + numbers_from(s, j as int));
                }
            }
            None => {}
        }
        i = j;
    }
    r
}

} // verus!
