use vstd::prelude::*;

use crate::environment::{value_view, ValueV};
use crate::expr::LiteralValue;
use crate::text::{int_text, int_to_text, parse_i64, parse_i64_text, push_all, push_char, string_of};

verus! {

/// The number type that holds FLOAT values. The interpreter runs over any
/// such type; the program around the library supplies one built on 64-bit
/// floating point.
///
/// Beside the operations stand spec functions that name their results. A
/// type that sets `obeys_arith_spec` promises that each operation gives the
/// value its spec function names; nothing here assumes that of any type, so
/// what the library states through these names it states only of the types
/// that keep the promise, and the rest of what it proves holds for every
/// implementation.
pub trait FloatArith: Sized + Copy {
    /// Whether the operations give what the spec functions beside them name.
    open spec fn obeys_arith_spec() -> bool {
        false
    }

    /// What `from_literal` gives for the text of a float literal.
    open spec fn literal_spec(text: Seq<char>) -> Self {
        vstd::pervasive::arbitrary()
    }

    /// What `parse_text` gives for a text.
    open spec fn parsed_spec(text: Seq<char>) -> Option<Self> {
        vstd::pervasive::arbitrary()
    }

    /// What `from_int` gives for an INT.
    open spec fn from_int_spec(i: i64) -> Self {
        vstd::pervasive::arbitrary()
    }

    /// What `zero` gives.
    open spec fn zero_spec() -> Self {
        vstd::pervasive::arbitrary()
    }

    /// The sum, difference, product, quotient and remainder of `self` and
    /// `other`, in that order.
    open spec fn add_spec(self, other: Self) -> Self {
        vstd::pervasive::arbitrary()
    }

    open spec fn sub_spec(self, other: Self) -> Self {
        vstd::pervasive::arbitrary()
    }

    open spec fn mul_spec(self, other: Self) -> Self {
        vstd::pervasive::arbitrary()
    }

    open spec fn div_spec(self, other: Self) -> Self {
        vstd::pervasive::arbitrary()
    }

    open spec fn rem_spec(self, other: Self) -> Self {
        vstd::pervasive::arbitrary()
    }

    /// Whether `self` equals, is greater than, at least, less than, or at
    /// most `other`.
    open spec fn equals_spec(self, other: Self) -> bool {
        vstd::pervasive::arbitrary()
    }

    open spec fn greater_spec(self, other: Self) -> bool {
        vstd::pervasive::arbitrary()
    }

    open spec fn greater_eq_spec(self, other: Self) -> bool {
        vstd::pervasive::arbitrary()
    }

    open spec fn less_spec(self, other: Self) -> bool {
        vstd::pervasive::arbitrary()
    }

    open spec fn less_eq_spec(self, other: Self) -> bool {
        vstd::pervasive::arbitrary()
    }

    open spec fn is_zero_spec(self) -> bool {
        vstd::pervasive::arbitrary()
    }

    /// The negation of `self`.
    open spec fn neg_spec(self) -> Self {
        vstd::pervasive::arbitrary()
    }

    /// Whether `self` has no fractional part, and `self` truncated to an INT.
    open spec fn is_whole_spec(self) -> bool {
        vstd::pervasive::arbitrary()
    }

    open spec fn to_int_spec(self) -> i64 {
        vstd::pervasive::arbitrary()
    }

    /// The text PRINT shows of `self`, and the text error reports show.
    open spec fn display_spec(self) -> Seq<char> {
        vstd::pervasive::arbitrary()
    }

    open spec fn debug_spec(self) -> Seq<char> {
        vstd::pervasive::arbitrary()
    }

    /// The value of a float literal as written, such as `3.14`.
    fn from_literal(text: &str) -> (r: Self)
        ensures
            Self::obeys_arith_spec() ==> r == Self::literal_spec(text@),
    ;

    /// The value of a FLOAT typed in for SCAN, if the text is a number.
    fn parse_text(text: &str) -> (r: Option<Self>)
        ensures
            Self::obeys_arith_spec() ==> r == Self::parsed_spec(text@),
    ;

    /// An INT widened to a FLOAT.
    fn from_int(i: i64) -> (r: Self)
        ensures
            Self::obeys_arith_spec() ==> r == Self::from_int_spec(i),
    ;

    /// The FLOAT a declaration without initializer holds.
    fn zero() -> (r: Self)
        ensures
            Self::obeys_arith_spec() ==> r == Self::zero_spec(),
    ;

    fn add(self, other: Self) -> (r: Self)
        ensures
            Self::obeys_arith_spec() ==> r == self.add_spec(other),
    ;

    fn sub(self, other: Self) -> (r: Self)
        ensures
            Self::obeys_arith_spec() ==> r == self.sub_spec(other),
    ;

    fn mul(self, other: Self) -> (r: Self)
        ensures
            Self::obeys_arith_spec() ==> r == self.mul_spec(other),
    ;

    fn div(self, other: Self) -> (r: Self)
        ensures
            Self::obeys_arith_spec() ==> r == self.div_spec(other),
    ;

    fn rem(self, other: Self) -> (r: Self)
        ensures
            Self::obeys_arith_spec() ==> r == self.rem_spec(other),
    ;

    fn neg(self) -> (r: Self)
        ensures
            Self::obeys_arith_spec() ==> r == self.neg_spec(),
    ;

    fn equals(self, other: Self) -> (r: bool)
        ensures
            Self::obeys_arith_spec() ==> r == self.equals_spec(other),
    ;

    fn greater(self, other: Self) -> (r: bool)
        ensures
            Self::obeys_arith_spec() ==> r == self.greater_spec(other),
    ;

    fn greater_eq(self, other: Self) -> (r: bool)
        ensures
            Self::obeys_arith_spec() ==> r == self.greater_eq_spec(other),
    ;

    fn less(self, other: Self) -> (r: bool)
        ensures
            Self::obeys_arith_spec() ==> r == self.less_spec(other),
    ;

    fn less_eq(self, other: Self) -> (r: bool)
        ensures
            Self::obeys_arith_spec() ==> r == self.less_eq_spec(other),
    ;

    fn is_zero(self) -> (r: bool)
        ensures
            Self::obeys_arith_spec() ==> r == self.is_zero_spec(),
    ;

    /// The value has no fractional part.
    fn is_whole(self) -> (r: bool)
        ensures
            Self::obeys_arith_spec() ==> r == self.is_whole_spec(),
    ;

    /// The value truncated to an INT.
    fn to_int(self) -> (r: i64)
        ensures
            Self::obeys_arith_spec() ==> r == self.to_int_spec(),
    ;

    /// The value as PRINT shows it.
    fn display_text(self) -> (r: String)
        ensures
            Self::obeys_arith_spec() ==> r@ == self.display_spec(),
    ;

    /// The value as the error reports show it.
    fn debug_text(self) -> (r: String)
        ensures
            Self::obeys_arith_spec() ==> r@ == self.debug_spec(),
    ;
}

/// What `{:?}` writes for a string: the string in double quotes with
/// escapes.
pub uninterp spec fn str_debug_text(s: Seq<char>) -> Seq<char>;

/// What `{:?}` writes for a char: the char in single quotes with escapes.
pub uninterp spec fn char_debug_text(c: char) -> Seq<char>;

/// The debug form of a string.
///
/// Trusted: calls `<str as Debug>::fmt` through `format!`; the result depends
/// on the string alone.
#[verifier::external_body]
fn debug_str(s: &str) -> (r: String)
    ensures
        r@ == str_debug_text(s@),
{
    format!("{:?}", s)
}

/// The debug form of a char.
///
/// Trusted: calls `<char as Debug>::fmt` through `format!`; the result depends
/// on the char alone.
#[verifier::external_body]
fn debug_char(c: char) -> (r: String)
    ensures
        r@ == char_debug_text(c),
{
    format!("{:?}", c)
}

/// A value's truth: NIL and FALSE are false, everything else is true.
pub open spec fn truthy<F>(v: ValueV<F>) -> bool {
    match v {
        LiteralValue::Nil => false,
        LiteralValue::Bool(b) => b,
        _ => true,
    }
}

pub fn is_truthy<F: Copy>(v: &LiteralValue<F>) -> (r: bool)
    ensures
        r == truthy(value_view(*v)),
{
    match v {
        LiteralValue::Nil => false,
        LiteralValue::Bool(b) => *b,
        _ => true,
    }
}

/// Whether `l == r` holds; `None` where it turns on a comparison of FLOAT
/// values, which the number type decides.
pub open spec fn equal_values<F>(l: ValueV<F>, r: ValueV<F>) -> Option<bool> {
    match (l, r) {
        (LiteralValue::Int(a), LiteralValue::Int(b)) => Some(a == b),
        (LiteralValue::Float(_), LiteralValue::Float(_)) => None,
        (LiteralValue::Int(_), LiteralValue::Float(_)) => None,
        (LiteralValue::Float(_), LiteralValue::Int(_)) => None,
        (LiteralValue::String(a), LiteralValue::String(b)) => Some(a == b),
        (LiteralValue::Bool(a), LiteralValue::Bool(b)) => Some(a == b),
        (LiteralValue::Char(a), LiteralValue::Char(b)) => Some(a == b),
        (LiteralValue::Nil, LiteralValue::Nil) => Some(true),
        _ => Some(false),
    }
}

/// Equality is symmetric, and every value that is not a FLOAT equals
/// itself; values of different kinds, other than an INT and a FLOAT, are
/// never equal. Where a FLOAT takes part the number type decides.
pub proof fn law_equality_symmetric_reflexive<F>(a: ValueV<F>, b: ValueV<F>)
    ensures
        equal_values(a, b) matches Some(x) ==> equal_values(b, a) == Some(x),
        equal_values(a, b) is None <==> equal_values(b, a) is None,
        !(a is Float) ==> equal_values(a, a) == Some(true),
        !same_variant(a, b) && !(is_numeric(a) && is_numeric(b)) ==> equal_values(a, b) == Some(false),
{
}

pub open spec fn is_numeric<F>(v: ValueV<F>) -> bool {
    v is Int || v is Float
}

pub open spec fn same_variant<F>(a: ValueV<F>, b: ValueV<F>) -> bool {
    (a is Int && b is Int) || (a is Float && b is Float) || (a is String && b is String) || (a is Char && b is Char)
        || (a is Bool && b is Bool) || (a is Nil && b is Nil)
}


/// A number as the number type holds it: an INT widened, a FLOAT as it is.
pub open spec fn as_float<F: FloatArith>(v: ValueV<F>) -> F {
    match v {
        LiteralValue::Int(i) => F::from_int_spec(i),
        LiteralValue::Float(f) => f,
        _ => vstd::pervasive::arbitrary(),
    }
}

/// Equality of values for a number type that obeys its spec functions:
/// where a FLOAT takes part, the number type's equality of the two numbers.
pub open spec fn values_equal<F: FloatArith>(l: ValueV<F>, r: ValueV<F>) -> bool {
    match equal_values(l, r) {
        Some(b) => b,
        None => as_float(l).equals_spec(as_float(r)),
    }
}

pub fn is_equal<F: FloatArith>(l: &LiteralValue<F>, r: &LiteralValue<F>) -> (b: bool)
    ensures
        equal_values(value_view(*l), value_view(*r)) matches Some(x) ==> b == x,
        F::obeys_arith_spec() ==> b == values_equal(value_view(*l), value_view(*r)),
{
    match (l, r) {
        (LiteralValue::Int(a), LiteralValue::Int(b)) => *a == *b,
        (LiteralValue::Float(a), LiteralValue::Float(b)) => a.equals(*b),
        (LiteralValue::Int(a), LiteralValue::Float(b)) => F::from_int(*a).equals(*b),
        (LiteralValue::Float(a), LiteralValue::Int(b)) => a.equals(F::from_int(*b)),
        (LiteralValue::String(a), LiteralValue::String(b)) => *a == *b,
        (LiteralValue::Bool(a), LiteralValue::Bool(b)) => *a == *b,
        (LiteralValue::Char(a), LiteralValue::Char(b)) => *a == *b,
        (LiteralValue::Nil, LiteralValue::Nil) => true,
        _ => false,
    }
}

/// The text PRINT and `&` make of a value; `None` for a FLOAT, whose text the
/// number type writes.
pub open spec fn value_text<F>(v: ValueV<F>) -> Option<Seq<char>> {
    match v {
        LiteralValue::Nil => Some("null"@),
        LiteralValue::Bool(b) => Some(if b { "TRUE"@ } else { "FALSE"@ }),
        LiteralValue::Int(i) => Some(int_text(i as int)),
        LiteralValue::Float(_) => None,
        LiteralValue::String(s) => Some(s),
        LiteralValue::Char(c) => Some(seq![c]),
    }
}

/// The text PRINT and `&` make of a value, for a number type that obeys its
/// spec functions: a FLOAT as the number type shows it.
pub open spec fn printed_text<F: FloatArith>(v: ValueV<F>) -> Seq<char> {
    match v {
        LiteralValue::Float(f) => f.display_spec(),
        _ => value_text(v)->0,
    }
}

/// The debug form of a value, for a number type that obeys its spec
/// functions: a FLOAT as `Float(` and the number type's debug text and `)`.
pub open spec fn debugged_text<F: FloatArith>(v: ValueV<F>) -> Seq<char> {
    match v {
        LiteralValue::Float(f) => "Float("@ + f.debug_spec() + ")"@,
        _ => value_debug_text(v)->0,
    }
}

pub fn stringify<F: FloatArith>(v: &LiteralValue<F>) -> (s: String)
    ensures
        value_text(value_view(*v)) matches Some(t) ==> s@ == t,
        F::obeys_arith_spec() ==> s@ == printed_text(value_view(*v)),
{
    match v {
        LiteralValue::Nil => string_of("null"),
        LiteralValue::Bool(b) => if *b { string_of("TRUE") } else { string_of("FALSE") },
        LiteralValue::Int(i) => int_to_text(*i),
        LiteralValue::Float(f) => f.display_text(),
        LiteralValue::String(s) => s.clone(),
        LiteralValue::Char(c) => {
            let mut s = String::new();
            push_char(&mut s, *c);
            assert(s@ =~= seq![*c]);
            s
        },
    }
}

/// The debug form of a value, as in `String("abc")`; `None` for a FLOAT.
pub open spec fn value_debug_text<F>(v: ValueV<F>) -> Option<Seq<char>> {
    match v {
        LiteralValue::Nil => Some("Nil"@),
        LiteralValue::Bool(b) => Some(if b { "Bool(true)"@ } else { "Bool(false)"@ }),
        LiteralValue::Int(i) => Some("Int("@ + int_text(i as int) + ")"@),
        LiteralValue::Float(_) => None,
        LiteralValue::String(s) => Some("String("@ + str_debug_text(s) + ")"@),
        LiteralValue::Char(c) => Some("Char("@ + char_debug_text(c) + ")"@),
    }
}

pub fn debug_value<F: FloatArith>(v: &LiteralValue<F>) -> (s: String)
    ensures
        value_debug_text(value_view(*v)) matches Some(t) ==> s@ == t,
        F::obeys_arith_spec() ==> s@ == debugged_text(value_view(*v)),
{
    match v {
        LiteralValue::Nil => string_of("Nil"),
        LiteralValue::Bool(b) => if *b { string_of("Bool(true)") } else { string_of("Bool(false)") },
        LiteralValue::Int(i) => {
            let mut s = string_of("Int(");
            let t = int_to_text(*i);
            push_all(&mut s, t.as_str());
            push_all(&mut s, ")");
            s
        },
        LiteralValue::Float(f) => {
            let mut s = string_of("Float(");
            let t = f.debug_text();
            push_all(&mut s, t.as_str());
            push_all(&mut s, ")");
            s
        },
        LiteralValue::String(x) => {
            let mut s = string_of("String(");
            let t = debug_str(x.as_str());
            push_all(&mut s, t.as_str());
            push_all(&mut s, ")");
            s
        },
        LiteralValue::Char(c) => {
            let mut s = string_of("Char(");
            let t = debug_char(*c);
            push_all(&mut s, t.as_str());
            push_all(&mut s, ")");
            s
        },
    }
}


/// White space as `char::is_whitespace` has it (the Unicode White_Space
/// property).
pub open spec fn is_white_space(c: char) -> bool {
    c == '\t' || c == '\n' || c == '\u{0B}' || c == '\u{0C}' || c == '\r' || c == ' ' || c == '\u{85}'
        || c == '\u{A0}' || c == '\u{1680}' || ('\u{2000}' <= c && c <= '\u{200A}') || c == '\u{2028}'
        || c == '\u{2029}' || c == '\u{202F}' || c == '\u{205F}' || c == '\u{3000}'
}

fn white_space(c: char) -> (r: bool)
    ensures
        r == is_white_space(c),
{
    c == '\t' || c == '\n' || c == '\u{0B}' || c == '\u{0C}' || c == '\r' || c == ' ' || c == '\u{85}'
        || c == '\u{A0}' || c == '\u{1680}' || ('\u{2000}' <= c && c <= '\u{200A}') || c == '\u{2028}'
        || c == '\u{2029}' || c == '\u{202F}' || c == '\u{205F}' || c == '\u{3000}'
}

pub open spec fn leading_space(s: Seq<char>) -> nat
    decreases s.len(),
{
    if s.len() > 0 && is_white_space(s[0]) {
        1 + leading_space(s.drop_first())
    } else {
        0
    }
}

pub open spec fn trailing_space(s: Seq<char>) -> nat
    decreases s.len(),
{
    if s.len() > 0 && is_white_space(s.last()) {
        1 + trailing_space(s.drop_last())
    } else {
        0
    }
}

/// `s` without white space at either end, as `str::trim` gives it.
pub open spec fn trim(s: Seq<char>) -> Seq<char> {
    if leading_space(s) >= s.len() {
        Seq::empty()
    } else {
        s.subrange(leading_space(s) as int, s.len() - trailing_space(s))
    }
}

/// The pieces of `s` between commas, as `str::split(',')` gives them: one
/// more piece than there are commas.
pub open spec fn split_commas(s: Seq<char>) -> Seq<Seq<char>>
    decreases s.len(),
{
    if s.len() == 0 {
        seq![Seq::empty()]
    } else if s.last() == ',' {
        split_commas(s.drop_last()).push(Seq::empty())
    } else {
        let p = split_commas(s.drop_last());
        p.update(p.len() - 1, p.last().push(s.last()))
    }
}

proof fn lemma_leading_space(s: Seq<char>, i: int)
    requires
        0 <= i <= s.len(),
        forall|k: int| 0 <= k < i ==> is_white_space(#[trigger] s[k]),
    ensures
        leading_space(s) == i + leading_space(s.subrange(i, s.len() as int)),
    decreases i,
{
    if i > 0 {
        lemma_leading_space(s.drop_first(), i - 1);
        assert(s.drop_first().subrange(i - 1, s.len() - 1) =~= s.subrange(i, s.len() as int));
    } else {
        assert(s.subrange(0, s.len() as int) =~= s);
    }
}

proof fn lemma_trailing_space(s: Seq<char>, j: int)
    requires
        0 <= j <= s.len(),
        forall|k: int| j <= k < s.len() ==> is_white_space(#[trigger] s[k]),
    ensures
        trailing_space(s) == (s.len() - j) + trailing_space(s.subrange(0, j)),
    decreases s.len() - j,
{
    if j < s.len() {
        lemma_trailing_space(s.drop_last(), j);
        assert(s.drop_last().subrange(0, j) =~= s.subrange(0, j));
    } else {
        assert(s.subrange(0, j) =~= s);
    }
}

proof fn lemma_split_commas_len(s: Seq<char>)
    ensures
        split_commas(s).len() >= 1,
    decreases s.len(),
{
    if s.len() > 0 {
        lemma_split_commas_len(s.drop_last());
    }
}

/// The characters of `v` with white space at both ends taken off.
pub fn trim_chars(v: &Vec<char>) -> (r: Vec<char>)
    ensures
        r@ == trim(v@),
{
    let n = v.len();
    let mut a: usize = 0;
    while a < n && white_space(v[a])
        invariant
            a <= n == v@.len(),
            forall|k: int| 0 <= k < a ==> is_white_space(#[trigger] v@[k]),
        decreases n - a,
    {
        a = a + 1;
    }
    proof { lemma_leading_space(v@, a as int); }
    if a == n {
        assert(v@.subrange(a as int, n as int) =~= Seq::<char>::empty());
        return Vec::new();
    }
    assert(v@.subrange(a as int, n as int)[0] == v@[a as int]);
    let mut b: usize = n;
    while b > a && white_space(v[b - 1])
        invariant
            a < n == v@.len(),
            a <= b <= n,
            !is_white_space(v@[a as int]),
            forall|k: int| b <= k < n ==> is_white_space(#[trigger] v@[k]),
        decreases b,
    {
        b = b - 1;
    }
    proof {
        lemma_trailing_space(v@, b as int);
        assert(b > a);
        assert(v@.subrange(0, b as int).last() == v@[b - 1]);
    }
    let mut r: Vec<char> = Vec::new();
    let mut k = a;
    while k < b
        invariant
            a <= k <= b <= n == v@.len(),
            r@ == v@.subrange(a as int, k as int),
        decreases b - k,
    {
        r.push(v[k]);
        assert(v@.subrange(a as int, k + 1) =~= v@.subrange(a as int, k as int).push(v@[k as int]));
        k = k + 1;
    }
    r
}

pub open spec fn pieces_view(v: Seq<Vec<char>>) -> Seq<Seq<char>> {
    v.map_values(|p: Vec<char>| p@)
}

/// The pieces of `v` between commas.
pub fn split_at_commas(v: &Vec<char>) -> (r: Vec<Vec<char>>)
    ensures
        pieces_view(r@) == split_commas(v@),
{
    let n = v.len();
    let mut done: Vec<Vec<char>> = Vec::new();
    let mut piece: Vec<char> = Vec::new();
    let mut i: usize = 0;
    assert(v@.subrange(0, 0) =~= Seq::<char>::empty());
    assert(pieces_view(done@).push(piece@) =~= seq![Seq::<char>::empty()]);
    while i < n
        invariant
            i <= n == v@.len(),
            pieces_view(done@).push(piece@) == split_commas(v@.subrange(0, i as int)),
        decreases n - i,
    {
        let ghost pre = v@.subrange(0, i as int);
        let ghost next = v@.subrange(0, i + 1);
        assert(next.drop_last() =~= pre);
        assert(next.last() == v@[i as int]);
        if v[i] == ',' {
            let ghost d = done@;
            let finished = piece;
            done.push(finished);
            piece = Vec::new();
            assert(pieces_view(done@) =~= pieces_view(d).push(finished@));
            assert(pieces_view(done@).push(piece@) =~= split_commas(pre).push(Seq::empty()));
        } else {
            let ghost old_piece = piece@;
            piece.push(v[i]);
            let ghost p = split_commas(pre);
            assert(pieces_view(done@).push(piece@) =~= p.update(p.len() - 1, p.last().push(v@[i as int])));
        }
        i = i + 1;
    }
    assert(v@.subrange(0, n as int) =~= v@);
    let ghost d = done@;
    let last = piece;
    done.push(last);
    assert(pieces_view(done@) =~= pieces_view(d).push(last@));
    done
}

pub open spec fn ascii_lower(c: char) -> char {
    if c == 'A' { 'a' }
    else if c == 'B' { 'b' }
    else if c == 'C' { 'c' }
    else if c == 'D' { 'd' }
    else if c == 'E' { 'e' }
    else if c == 'F' { 'f' }
    else if c == 'G' { 'g' }
    else if c == 'H' { 'h' }
    else if c == 'I' { 'i' }
    else if c == 'J' { 'j' }
    else if c == 'K' { 'k' }
    else if c == 'L' { 'l' }
    else if c == 'M' { 'm' }
    else if c == 'N' { 'n' }
    else if c == 'O' { 'o' }
    else if c == 'P' { 'p' }
    else if c == 'Q' { 'q' }
    else if c == 'R' { 'r' }
    else if c == 'S' { 's' }
    else if c == 'T' { 't' }
    else if c == 'U' { 'u' }
    else if c == 'V' { 'v' }
    else if c == 'W' { 'w' }
    else if c == 'X' { 'x' }
    else if c == 'Y' { 'y' }
    else if c == 'Z' { 'z' }
    else { c }
}

fn lower_char(c: char) -> (r: char)
    ensures
        r == ascii_lower(c),
{
    if c == 'A' { 'a' }
    else if c == 'B' { 'b' }
    else if c == 'C' { 'c' }
    else if c == 'D' { 'd' }
    else if c == 'E' { 'e' }
    else if c == 'F' { 'f' }
    else if c == 'G' { 'g' }
    else if c == 'H' { 'h' }
    else if c == 'I' { 'i' }
    else if c == 'J' { 'j' }
    else if c == 'K' { 'k' }
    else if c == 'L' { 'l' }
    else if c == 'M' { 'm' }
    else if c == 'N' { 'n' }
    else if c == 'O' { 'o' }
    else if c == 'P' { 'p' }
    else if c == 'Q' { 'q' }
    else if c == 'R' { 'r' }
    else if c == 'S' { 's' }
    else if c == 'T' { 't' }
    else if c == 'U' { 'u' }
    else if c == 'V' { 'v' }
    else if c == 'W' { 'w' }
    else if c == 'X' { 'x' }
    else if c == 'Y' { 'y' }
    else if c == 'Z' { 'z' }
    else { c }
}

/// `a` and `b` are equal up to ASCII case, as `str::eq_ignore_ascii_case`
/// has it.
pub open spec fn eq_ignore_ascii_case(a: Seq<char>, b: Seq<char>) -> bool {
    a.len() == b.len() && forall|k: int| 0 <= k < a.len() ==> ascii_lower(#[trigger] a[k]) == ascii_lower(b[k])
}

fn same_ignoring_case(a: &Vec<char>, b: &str) -> (r: bool)
    ensures
        r == eq_ignore_ascii_case(a@, b@),
{
    let n = b.unicode_len();
    if a.len() != n {
        return false;
    }
    let mut k: usize = 0;
    while k < n
        invariant
            n == b@.len() == a@.len(),
            k <= n,
            forall|m: int| 0 <= m < k ==> ascii_lower(#[trigger] a@[m]) == ascii_lower(b@[m]),
        decreases n - k,
    {
        if lower_char(a[k]) != lower_char(b.get_char(k)) {
            return false;
        }
        k = k + 1;
    }
    true
}

/// What SCAN makes of the typed-in text `v` for a variable of the type named
/// `ty`: the value, or the error. `None` for FLOAT, which the number type
/// reads.
pub open spec fn scanned_value<F>(v: Seq<char>, ty: Seq<char>, lexeme: Seq<char>) -> Option<Result<ValueV<F>, Seq<char>>> {
    if ty == "INT"@ {
        Some(match parse_i64_text(v) {
            Some(i) => Ok(LiteralValue::Int(i)),
            None => Err("type mismatch cannot convert '"@ + v + "' to INT."@),
        })
    } else if ty == "FLOAT"@ {
        None
    } else if ty == "BOOL"@ {
        Some(if eq_ignore_ascii_case(v, "true"@) {
            Ok(LiteralValue::Bool(true))
        } else if eq_ignore_ascii_case(v, "false"@) {
            Ok(LiteralValue::Bool(false))
        } else {
            Err("expected BOOL (TRUE/FALSE) for '"@ + lexeme + "', got: "@ + v)
        })
    } else if ty == "CHAR"@ {
        Some(if v.len() == 1 {
            Ok(LiteralValue::Char(v[0]))
        } else {
            Err("expected single CHAR for '"@ + lexeme + "'."@)
        })
    } else {
        Some(Err("unknown type for SCAN."@))
    }
}

/// What converting the typed-in text `v` to a FLOAT gives: some FLOAT, or
/// the conversion error; for a number type that obeys its spec functions,
/// the FLOAT it reads from the text exactly where it reads one, and the
/// error exactly where it reads none.
pub open spec fn float_scanned<F: FloatArith>(v: Seq<char>, r: Result<LiteralValue<F>, String>) -> bool {
    &&& match r {
        Ok(x) => x is Float,
        Err(m) => m@ == "type mismatch cannot convert '"@ + v + "' to FLOAT."@,
    }
    &&& F::obeys_arith_spec() ==> match F::parsed_spec(v) {
        Some(f) => r == Ok::<LiteralValue<F>, String>(LiteralValue::Float(f)),
        None => r is Err,
    }
}

fn text_is(v: &String, lit: &str) -> (r: bool)
    ensures
        r == (v@ == lit@),
{
    let w = string_of(lit);
    *v == w
}

/// Converts the typed-in text `v` to a value of the type named `ty`; the
/// error message where it does not convert.
pub fn cast_to_type<F: FloatArith>(v: &Vec<char>, ty: &String, lexeme: &String) -> (r: Result<LiteralValue<F>, String>)
    ensures
        scanned_value::<F>(v@, ty@, lexeme@) matches Some(x) ==> match (r, x) {
            (Ok(a), Ok(b)) => value_view(a) == b,
            (Err(a), Err(b)) => a@ == b,
            _ => false,
        },
        ty@ == "FLOAT"@ ==> float_scanned(v@, r),
{
    let text = crate::text::string_from_range(v, 0, v.len());
    assert(v@.subrange(0, v@.len() as int) =~= v@);
    proof {
        reveal_strlit("INT");
        reveal_strlit("FLOAT");
    }
    assert("FLOAT"@.len() == 5 && "INT"@.len() == 3);
    assert(ty@ == "FLOAT"@ ==> ty@ != "INT"@);
    if text_is(ty, "INT") {
        match parse_i64(v) {
            Some(i) => Ok(LiteralValue::Int(i)),
            None => {
                let mut m = string_of("type mismatch cannot convert '");
                push_all(&mut m, text.as_str());
                push_all(&mut m, "' to INT.");
                Err(m)
            },
        }
    } else if text_is(ty, "FLOAT") {
        match F::parse_text(text.as_str()) {
            Some(f) => Ok(LiteralValue::Float(f)),
            None => {
                let mut m = string_of("type mismatch cannot convert '");
                push_all(&mut m, text.as_str());
                push_all(&mut m, "' to FLOAT.");
                assert(m@ == "type mismatch cannot convert '"@ + v@ + "' to FLOAT."@);
                Err(m)
            },
        }
    } else if text_is(ty, "BOOL") {
        if same_ignoring_case(v, "true") {
            Ok(LiteralValue::Bool(true))
        } else if same_ignoring_case(v, "false") {
            Ok(LiteralValue::Bool(false))
        } else {
            let mut m = string_of("expected BOOL (TRUE/FALSE) for '");
            push_all(&mut m, lexeme.as_str());
            push_all(&mut m, "', got: ");
            push_all(&mut m, text.as_str());
            Err(m)
        }
    } else if text_is(ty, "CHAR") {
        if v.len() == 1 {
            Ok(LiteralValue::Char(v[0]))
        } else {
            let mut m = string_of("expected single CHAR for '");
            push_all(&mut m, lexeme.as_str());
            push_all(&mut m, "'.");
            Err(m)
        }
    } else {
        Err(string_of("unknown type for SCAN."))
    }
}
} // verus!
