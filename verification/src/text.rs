use vstd::prelude::*;

verus! {

/// Appends one character to a string.
///
/// Trusted: calls `String::push`, whose documentation says it appends the
/// given char to the end of the string.
#[verifier::external_body]
pub(crate) fn push_char(s: &mut String, c: char)
    ensures
        final(s)@ == old(s)@.push(c),
{
    s.push(c);
}

/// A new string holding the characters of a literal.
pub fn string_of(lit: &str) -> (s: String)
    ensures
        s@ == lit@,
{
    lit.to_owned()
}

/// Appends the characters of `tail` to `s`.
pub fn push_all(s: &mut String, tail: &str)
    ensures
        final(s)@ == old(s)@ + tail@,
{
    let n = tail.unicode_len();
    let mut i: usize = 0;
    while i < n
        invariant
            n == tail@.len(),
            i <= n,
            s@ == old(s)@ + tail@.subrange(0, i as int),
        decreases n - i,
    {
        let c = tail.get_char(i);
        push_char(s, c);
        assert(tail@.subrange(0, i + 1) =~= tail@.subrange(0, i as int).push(c));
        i = i + 1;
    }
    assert(tail@.subrange(0, n as int) =~= tail@);
}

/// The characters `v[start..end]` as a string.
pub fn string_from_range(v: &Vec<char>, start: usize, end: usize) -> (s: String)
    requires
        start <= end <= v@.len(),
    ensures
        s@ == v@.subrange(start as int, end as int),
{
    let mut s = String::new();
    let mut i = start;
    while i < end
        invariant
            start <= i <= end <= v@.len(),
            s@ == v@.subrange(start as int, i as int),
        decreases end - i,
    {
        push_char(&mut s, v[i]);
        assert(v@.subrange(start as int, i + 1) =~= v@.subrange(start as int, i as int).push(v@[i as int]));
        i = i + 1;
    }
    s
}

/// The characters of a string, in order.
pub fn chars_of(s: &str) -> (v: Vec<char>)
    ensures
        v@ == s@,
{
    let n = s.unicode_len();
    let mut v: Vec<char> = Vec::new();
    let mut i: usize = 0;
    while i < n
        invariant
            n == s@.len(),
            i <= n,
            v@ == s@.subrange(0, i as int),
        decreases n - i,
    {
        v.push(s.get_char(i));
        assert(s@.subrange(0, i + 1) =~= s@.subrange(0, i as int).push(s@[i as int]));
        i = i + 1;
    }
    assert(s@.subrange(0, n as int) =~= s@);
    v
}

/// The decimal digit for `d` (0 to 9).
pub open spec fn digit_char(d: int) -> char {
    if d == 0 { '0' }
    else if d == 1 { '1' }
    else if d == 2 { '2' }
    else if d == 3 { '3' }
    else if d == 4 { '4' }
    else if d == 5 { '5' }
    else if d == 6 { '6' }
    else if d == 7 { '7' }
    else if d == 8 { '8' }
    else { '9' }
}

/// The value of a decimal digit character.
pub open spec fn digit_value(c: char) -> int {
    c as int - '0' as int
}

pub open spec fn is_digit(c: char) -> bool {
    '0' <= c && c <= '9'
}

/// The decimal text of a natural number, without leading zeros.
pub open spec fn nat_text(n: nat) -> Seq<char>
    decreases n,
{
    if n < 10 {
        seq![digit_char(n as int)]
    } else {
        nat_text(n / 10).push(digit_char((n % 10) as int))
    }
}

/// The decimal text of an integer: a minus sign before a negative one.
pub open spec fn int_text(i: int) -> Seq<char> {
    if i < 0 {
        seq!['-'] + nat_text((-i) as nat)
    } else {
        nat_text(i as nat)
    }
}

fn digit_of(d: u128) -> (c: char)
    requires
        d < 10,
    ensures
        c == digit_char(d as int),
{
    if d == 0 { '0' }
    else if d == 1 { '1' }
    else if d == 2 { '2' }
    else if d == 3 { '3' }
    else if d == 4 { '4' }
    else if d == 5 { '5' }
    else if d == 6 { '6' }
    else if d == 7 { '7' }
    else if d == 8 { '8' }
    else { '9' }
}

fn nat_to_text(n: u128) -> (s: String)
    ensures
        s@ == nat_text(n as nat),
    decreases n,
{
    if n < 10 {
        let mut s = String::new();
        push_char(&mut s, digit_of(n));
        assert(s@ =~= seq![digit_char(n as int)]);
        s
    } else {
        let mut s = nat_to_text(n / 10);
        push_char(&mut s, digit_of(n % 10));
        s
    }
}

/// The decimal text of a signed integer, as `i64::to_string` writes it.
pub fn int_to_text(i: i64) -> (s: String)
    ensures
        s@ == int_text(i as int),
{
    let wide = i as i128;
    if wide < 0 {
        let mut s = string_of("-");
        proof { reveal_strlit("-"); }
        let digits = nat_to_text((0 - wide) as u128);
        push_all(&mut s, digits.as_str());
        assert(s@ =~= seq!['-'] + nat_text((-(i as int)) as nat));
        s
    } else {
        nat_to_text(wide as u128)
    }
}

/// The decimal text of a line number.
pub fn usize_to_text(n: usize) -> (s: String)
    ensures
        s@ == nat_text(n as nat),
{
    nat_to_text(n as u128)
}

/// The value of a string of decimal digits, read left to right.
pub open spec fn digits_value(s: Seq<char>) -> int
    decreases s.len(),
{
    if s.len() == 0 {
        0
    } else {
        10 * digits_value(s.drop_last()) + digit_value(s.last())
    }
}

pub open spec fn all_digits(s: Seq<char>) -> bool {
    forall|k: int| 0 <= k < s.len() ==> is_digit(#[trigger] s[k])
}

/// What `i64::from_str` gives for `s`: an optional sign, then one or more
/// decimal digits and nothing else, with a value that fits in an `i64`.
pub open spec fn parse_i64_text(s: Seq<char>) -> Option<i64> {
    let negative = s.len() > 0 && s[0] == '-';
    let signed = s.len() > 0 && (s[0] == '-' || s[0] == '+');
    let body = if signed { s.drop_first() } else { s };
    if body.len() == 0 || !all_digits(body) {
        None
    } else {
        let v = if negative { -digits_value(body) } else { digits_value(body) };
        if i64::MIN <= v <= i64::MAX {
            Some(v as i64)
        } else {
            None
        }
    }
}

pub proof fn lemma_digits_value_nonneg(s: Seq<char>)
    requires
        all_digits(s),
    ensures
        digits_value(s) >= 0,
    decreases s.len(),
{
    if s.len() > 0 {
        assert(all_digits(s.drop_last()));
        lemma_digits_value_nonneg(s.drop_last());
        assert(is_digit(s[s.len() - 1]));
    }
}

/// Extending an all-digit string never lowers its value.
proof fn lemma_digits_value_grows(s: Seq<char>, k: int)
    requires
        all_digits(s),
        0 <= k <= s.len(),
    ensures
        digits_value(s.subrange(0, k)) <= digits_value(s),
    decreases s.len() - k,
{
    if k < s.len() {
        let t = s.subrange(0, k + 1);
        assert(t.drop_last() =~= s.subrange(0, k));
        assert(all_digits(t));
        assert(all_digits(s.subrange(0, k)));
        lemma_digits_value_nonneg(s.subrange(0, k));
        assert(is_digit(t.last()));
        lemma_digits_value_grows(s, k + 1);
    } else {
        assert(s.subrange(0, k) =~= s);
    }
}

/// The value of the digits `s[start..]`, capped at `cap`, or `None` where a
/// character there is not a digit.
fn capped_digits_value(s: &Vec<char>, start: usize, cap: i128) -> (r: Option<i128>)
    requires
        start <= s@.len(),
        0 < cap <= 0x1_0000_0000_0000_0000_0000,
    ensures
        r is None <==> !all_digits(s@.subrange(start as int, s@.len() as int)),
        r matches Some(v) ==> {
            let d = digits_value(s@.subrange(start as int, s@.len() as int));
            &&& 0 <= v <= cap
            &&& (v == cap ==> d >= cap)
            &&& (v < cap ==> d == v)
        },
{
    let n = s.len();
    let mut acc: i128 = 0;
    let mut i = start;
    while i < n
        invariant
            start <= i <= n == s@.len(),
            0 < cap <= 0x1_0000_0000_0000_0000_0000,
            all_digits(s@.subrange(start as int, i as int)),
            0 <= acc <= cap,
            acc < cap ==> acc == digits_value(s@.subrange(start as int, i as int)),
            acc == cap ==> digits_value(s@.subrange(start as int, i as int)) >= cap,
        decreases n - i,
    {
        let c = s[i];
        if !('0' <= c && c <= '9') {
            assert(s@.subrange(start as int, n as int)[i - start] == c);
            return None;
        }
        let ghost pre = s@.subrange(start as int, i as int);
        let ghost next = s@.subrange(start as int, i + 1);
        assert(next.drop_last() =~= pre);
        assert(next.last() == c);
        assert(all_digits(next));
        proof { lemma_digits_value_nonneg(pre); }
        let d = (c as u32 - '0' as u32) as i128;
        if acc < cap {
            let v = acc * 10 + d;
            acc = if v > cap { cap } else { v };
        }
        i = i + 1;
    }
    Some(acc)
}

/// Parses a decimal integer as `i64::from_str` does.
pub fn parse_i64(text: &Vec<char>) -> (r: Option<i64>)
    ensures
        r == parse_i64_text(text@),
{
    let s = text;
    let n = s.len();
    let negative = n > 0 && s[0] == '-';
    let signed = n > 0 && (s[0] == '-' || s[0] == '+');
    let start: usize = if signed { 1 } else { 0 };
    let ghost body = if signed { s@.drop_first() } else { s@ };
    assert(body =~= s@.subrange(start as int, n as int));
    if start == n {
        return None;
    }
    // one past the largest magnitude an i64 holds
    let cap: i128 = 9223372036854775809;
    match capped_digits_value(s, start, cap) {
        None => None,
        Some(acc) => {
            proof { lemma_digits_value_nonneg(body); }
            if acc == cap {
                None
            } else {
                let v: i128 = if negative { 0 - acc } else { acc };
                if v < -9223372036854775808 || v > 9223372036854775807 {
                    None
                } else {
                    Some(v as i64)
                }
            }
        }
    }
}

} // verus!
