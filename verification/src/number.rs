//! Numeric literals.
//!
//! A [`Number`] is the exact text of a numeric literal. The library never
//! rounds it: it only decides whether a text is a literal, following the
//! grammar of decimal floating-point literals
//!
//! ```text
//! Float  ::= Sign? ( 'inf' | 'infinity' | 'nan' | Number )
//! Number ::= ( Digit+ | Digit+ '.' Digit* | Digit* '.' Digit+ ) Exp?
//! Exp    ::= 'e' Sign? Digit+
//! Sign   ::= [+-]
//! Digit  ::= [0-9]
//! ```
//!
//! read without regard to ASCII case.

use vstd::prelude::*;
use crate::text::{
    find_char, first_where, from_chars, lemma_first_where, lemma_slice_fits, to_chars,
};

verus! {

/// `c` is one of the ten ASCII digits.
pub open spec fn is_digit(c: char) -> bool {
    '0' <= c <= '9'
}

/// `c` is a sign character.
pub open spec fn is_sign(c: char) -> bool {
    c == '+' || c == '-'
}

/// `c` introduces an exponent.
pub open spec fn is_exponent_mark(c: char) -> bool {
    c == 'e' || c == 'E'
}

/// `c` is the letter `small`, or the ASCII capital of it.
pub open spec fn folds_to(c: char, small: char) -> bool {
    c == small || ('A' <= c <= 'Z' && c as u32 + 32 == small as u32)
}

/// Every character of `s[lo..hi]` is a digit.
pub open spec fn digits_in(s: Seq<char>, lo: int, hi: int) -> bool {
    forall|i: int| lo <= i < hi ==> is_digit(#[trigger] s[i])
}

/// `s[lo..]` is `word`, ASCII case aside.
pub open spec fn word_at(s: Seq<char>, lo: int, word: Seq<char>) -> bool {
    &&& s.len() - lo == word.len()
    &&& forall|i: int| 0 <= i < word.len() ==> folds_to(#[trigger] s[lo + i], word[i])
}

/// `s[lo..hi]` is digits around at most one point, with at least one digit.
pub open spec fn mantissa_in(s: Seq<char>, lo: int, hi: int) -> bool {
    let point = first_where(s, lo, hi, |c: char| c == '.');
    &&& digits_in(s, lo, point)
    &&& digits_in(s, point + 1, hi)
    &&& (if point < hi { hi - lo >= 2 } else { hi - lo >= 1 })
}

/// `s[lo..hi]` is an optional sign and at least one digit.
pub open spec fn exponent_in(s: Seq<char>, lo: int, hi: int) -> bool {
    let first = if lo < hi && is_sign(s[lo]) { lo + 1 } else { lo };
    first < hi && digits_in(s, first, hi)
}

/// `s[lo..hi]` is a mantissa with an optional exponent.
pub open spec fn decimal_in(s: Seq<char>, lo: int, hi: int) -> bool {
    let mark = first_where(s, lo, hi, |c: char| is_exponent_mark(c));
    &&& mantissa_in(s, lo, mark)
    &&& mark < hi ==> exponent_in(s, mark + 1, hi)
}

/// Where the unsigned part of `s` starts.
pub open spec fn body_start(s: Seq<char>) -> int {
    if s.len() > 0 && is_sign(s[0]) {
        1
    } else {
        0
    }
}

/// `s` is a floating-point literal.
pub open spec fn is_float_literal(s: Seq<char>) -> bool {
    let lo = body_start(s);
    ||| word_at(s, lo, seq!['i', 'n', 'f'])
    ||| word_at(s, lo, seq!['i', 'n', 'f', 'i', 'n', 'i', 't', 'y'])
    ||| word_at(s, lo, seq!['n', 'a', 'n'])
    ||| decimal_in(s, lo, s.len() as int)
}

/// `s` is a literal written with digits only.
pub open spec fn is_integer_literal(s: Seq<char>) -> bool {
    s.len() > 0 && digits_in(s, 0, s.len() as int)
}

fn digit(c: char) -> (r: bool)
    ensures
        r == is_digit(c),
{
    '0' <= c && c <= '9'
}

fn sign(c: char) -> (r: bool)
    ensures
        r == is_sign(c),
{
    c == '+' || c == '-'
}

fn folds(c: char, small: char) -> (r: bool)
    ensures
        r == folds_to(c, small),
{
    c == small || ('A' <= c && c <= 'Z' && c as u32 + 32 == small as u32)
}

fn all_digits(s: &[char], lo: usize, hi: usize) -> (r: bool)
    requires
        lo <= hi <= s@.len(),
    ensures
        r == digits_in(s@, lo as int, hi as int),
{
    let mut i: usize = lo;
    while i < hi
        invariant
            lo <= i <= hi <= s@.len(),
            digits_in(s@, lo as int, i as int),
        decreases hi - i,
    {
        if !digit(s[i]) {
            return false;
        }
        i += 1;
    }
    true
}

fn find_mark(s: &[char], lo: usize, hi: usize) -> (r: usize)
    requires
        lo <= hi <= s@.len(),
    ensures
        r == first_where(s@, lo as int, hi as int, |c: char| is_exponent_mark(c)),
        lo <= r <= hi,
{
    let mut i: usize = lo;
    while i < hi && s[i] != 'e' && s[i] != 'E'
        invariant
            lo <= i <= hi <= s@.len(),
            first_where(s@, lo as int, hi as int, |c: char| is_exponent_mark(c)) == first_where(
                s@,
                i as int,
                hi as int,
                |c: char| is_exponent_mark(c),
            ),
        decreases hi - i,
    {
        i += 1;
    }
    i
}

fn is_word(s: &[char], lo: usize, word: &Vec<char>) -> (r: bool)
    requires
        lo <= s@.len(),
    ensures
        r == word_at(s@, lo as int, word@),
{
    if s.len() - lo != word.len() {
        return false;
    }
    proof {
        lemma_slice_fits(s);
    }
    let mut i: usize = 0;
    while i < word.len()
        invariant
            lo <= s@.len() <= usize::MAX,
            s@.len() - lo == word@.len(),
            i <= word@.len(),
            forall|j: int| 0 <= j < i ==> folds_to(#[trigger] s@[lo + j], word@[j]),
        decreases word@.len() - i,
    {
        if !folds(s[lo + i], word[i]) {
            return false;
        }
        i += 1;
    }
    true
}

fn is_mantissa(s: &[char], lo: usize, hi: usize) -> (r: bool)
    requires
        lo <= hi <= s@.len(),
    ensures
        r == mantissa_in(s@, lo as int, hi as int),
{
    let point = find_char(s, lo, hi, '.');
    if point < hi {
        hi - lo >= 2 && all_digits(s, lo, point) && all_digits(s, point + 1, hi)
    } else {
        hi - lo >= 1 && all_digits(s, lo, hi)
    }
}

fn is_exponent(s: &[char], lo: usize, hi: usize) -> (r: bool)
    requires
        lo <= hi <= s@.len(),
    ensures
        r == exponent_in(s@, lo as int, hi as int),
{
    let first = if lo < hi && sign(s[lo]) { lo + 1 } else { lo };
    first < hi && all_digits(s, first, hi)
}

fn is_decimal(s: &[char], lo: usize, hi: usize) -> (r: bool)
    requires
        lo <= hi <= s@.len(),
    ensures
        r == decimal_in(s@, lo as int, hi as int),
{
    let mark = find_mark(s, lo, hi);
    if !is_mantissa(s, lo, mark) {
        return false;
    }
    if mark < hi {
        is_exponent(s, mark + 1, hi)
    } else {
        true
    }
}

/// Whether `s` is a floating-point literal.
pub fn is_literal(s: &[char]) -> (r: bool)
    ensures
        r == is_float_literal(s@),
{
    let lo: usize = if s.len() > 0 && sign(s[0]) { 1 } else { 0 };
    let inf = vec!['i', 'n', 'f'];
    let infinity = vec!['i', 'n', 'f', 'i', 'n', 'i', 't', 'y'];
    let nan = vec!['n', 'a', 'n'];
    assert(inf@ =~= seq!['i', 'n', 'f']);
    assert(infinity@ =~= seq!['i', 'n', 'f', 'i', 'n', 'i', 't', 'y']);
    assert(nan@ =~= seq!['n', 'a', 'n']);
    is_word(s, lo, &inf) || is_word(s, lo, &infinity) || is_word(s, lo, &nan) || is_decimal(
        s,
        lo,
        s.len(),
    )
}

/// The exact text of a numeric literal.
#[derive(PartialEq, Eq, Debug)]
pub struct Number {
    text: String,
}

impl View for Number {
    type V = Seq<char>;

    closed spec fn view(&self) -> Seq<char> {
        self.text@
    }
}

impl Clone for Number {
    fn clone(&self) -> (r: Self)
        ensures
            r@ == self@,
    {
        proof {
            use_type_invariant(self);
        }
        Number { text: self.text.clone() }
    }
}

impl Number {
    #[verifier::type_invariant]
    spec fn literal(self) -> bool {
        is_float_literal(self.text@)
    }

    /// The literal written `text`, or `None` where `text` is no literal.
    pub fn parse(text: &str) -> (r: Option<Number>)
        ensures
            match r {
                Some(n) => n@ == text@ && is_float_literal(text@),
                None => !is_float_literal(text@),
            },
    {
        let chars = to_chars(text);
        assert(chars@.subrange(0, chars@.len() as int) =~= chars@);
        Number::from_chars(chars.as_slice(), 0, chars.len())
    }

    /// The literal written `chars[from..to]`, or `None` where that is no
    /// literal.
    pub fn from_chars(chars: &[char], from: usize, to: usize) -> (r: Option<Number>)
        requires
            from <= to <= chars@.len(),
        ensures
            match r {
                Some(n) => n@ == chars@.subrange(from as int, to as int) && is_float_literal(n@),
                None => !is_float_literal(chars@.subrange(from as int, to as int)),
            },
    {
        let text = from_chars(chars, from, to);
        let own = to_chars(text.as_str());
        if is_literal(own.as_slice()) {
            Some(Number { text })
        } else {
            None
        }
    }

    /// The text of the literal.
    pub fn as_str(&self) -> (r: &str)
        ensures
            r@ == self@,
            is_float_literal(r@),
    {
        proof {
            use_type_invariant(self);
        }
        self.text.as_str()
    }

    /// Whether the literal is written with digits only.
    pub fn is_integer(&self) -> (r: bool)
        ensures
            r == is_integer_literal(self@),
    {
        let chars = to_chars(self.text.as_str());
        chars.len() > 0 && all_digits(chars.as_slice(), 0, chars.len())
    }

    /// The literal `whole.fraction`, for two literals written with digits
    /// only; `None` for others.
    pub fn with_fraction(whole: &Number, fraction: &Number) -> (r: Option<Number>)
        ensures
            match r {
                Some(n) => {
                    &&& is_integer_literal(whole@)
                    &&& is_integer_literal(fraction@)
                    &&& n@ == whole@ + seq!['.'] + fraction@
                },
                None => !(is_integer_literal(whole@) && is_integer_literal(fraction@)),
            },
    {
        if !(whole.is_integer() && fraction.is_integer()) {
            return None;
        }
        let mut text = whole.text.clone();
        text.push('.');
        text.append(fraction.text.as_str());
        proof {
            assert(text@ =~= whole@ + seq!['.'] + fraction@);
            lemma_fraction_is_literal(whole@, fraction@);
        }
        Some(Number { text })
    }
}

/// Two runs of digits around a point make a literal.
pub proof fn lemma_fraction_is_literal(whole: Seq<char>, fraction: Seq<char>)
    requires
        is_integer_literal(whole),
        is_integer_literal(fraction),
    ensures
        is_float_literal(whole + seq!['.'] + fraction),
{
    let s = whole + seq!['.'] + fraction;
    let n = s.len() as int;
    let w = whole.len() as int;
    assert(forall|i: int| 0 <= i < w ==> s[i] == whole[i]);
    assert(s[w] == '.');
    assert(forall|i: int| w < i < n ==> s[i] == fraction[i - w - 1]);
    assert(body_start(s) == 0);
    let marked = |c: char| is_exponent_mark(c);
    let pointed = |c: char| c == '.';
    lemma_first_where(s, 0, n, marked);
    assert(first_where(s, 0, n, marked) == n) by {
        let k = first_where(s, 0, n, marked);
        if k < n {
            if k < w {
                assert(is_digit(whole[k]));
            } else if k > w {
                assert(is_digit(fraction[k - w - 1]));
            }
        }
    }
    lemma_first_where(s, 0, n, pointed);
    assert(first_where(s, 0, n, pointed) == w) by {
        let k = first_where(s, 0, n, pointed);
        if k < w {
            assert(is_digit(whole[k]));
        }
    }
    assert(digits_in(s, 0, w)) by {
        assert forall|i: int| 0 <= i < w implies is_digit(#[trigger] s[i]) by {
            assert(is_digit(whole[i]));
        }
    }
    assert(digits_in(s, w + 1, n)) by {
        assert forall|i: int| w + 1 <= i < n implies is_digit(#[trigger] s[i]) by {
            assert(is_digit(fraction[i - w - 1]));
        }
    }
    assert(mantissa_in(s, 0, n));
    assert(decimal_in(s, 0, n));
}

} // verus!
