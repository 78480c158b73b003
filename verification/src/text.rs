//! Text as sequences of characters.
//!
//! The library reasons about text as `Seq<char>`. These helpers move between
//! `String`/`&str` and `Vec<char>`, so that the rest of the crate can index
//! characters in constant time, and look for the first character or index
//! of a kind.

use vstd::prelude::*;

verus! {

/// `String::push` appends one character to the end of the string.
pub assume_specification[ String::push ](s: &mut String, c: char)
    ensures
        final(s)@ == old(s)@.push(c),
;

/// `str::eq` holds exactly when both slices hold the same characters.
pub assume_specification[ <str as PartialEq>::eq ](a: &str, b: &str) -> (r: bool)
    ensures
        r == (a@ == b@),
;

/// The characters of `s`, in order.
pub fn to_chars(s: &str) -> (r: Vec<char>)
    ensures
        r@ == s@,
{
    let mut out: Vec<char> = Vec::new();
    let mut it = s.chars();
    for c in iter: it
        invariant
            out@ == s@.take(iter.index() as int),
            iter.seq() == s@,
    {
        out.push(c);
        assert(s@.take(iter.index() + 1) == s@.take(iter.index() as int).push(s@[iter.index() as int]));
    }
    assert(s@.take(s@.len() as int) == s@);
    out
}

/// The string made of the characters `chars[from..to]`.
pub fn from_chars(chars: &[char], from: usize, to: usize) -> (r: String)
    requires
        from <= to <= chars@.len(),
    ensures
        r@ == chars@.subrange(from as int, to as int),
{
    let mut out = String::new();
    let mut i: usize = from;
    while i < to
        invariant
            from <= i <= to <= chars@.len(),
            out@ == chars@.subrange(from as int, i as int),
        decreases to - i,
    {
        out.push(chars[i]);
        assert(chars@.subrange(from as int, i + 1) == chars@.subrange(from as int, i as int).push(
            chars@[i as int],
        ));
        i += 1;
    }
    out
}

/// The one-character string holding `c`.
pub fn char_string(c: char) -> (r: String)
    ensures
        r@ == seq![c],
{
    let mut out = String::new();
    out.push(c);
    assert(Seq::<char>::empty().push(c) == seq![c]);
    out
}

/// Whether two strings hold the same characters.
pub fn same_text(a: &str, b: &str) -> (r: bool)
    ensures
        r == (a@ == b@),
{
    a.eq(b)
}

/// The first index in `lo..hi` whose character satisfies `wanted`, or `hi`
/// where there is none.
pub open spec fn first_where(s: Seq<char>, lo: int, hi: int, wanted: spec_fn(char) -> bool) -> int
    decreases hi - lo,
{
    if lo >= hi {
        hi
    } else if wanted(s[lo]) {
        lo
    } else {
        first_where(s, lo + 1, hi, wanted)
    }
}

/// What `first_where` returns: an index in range, wanted unless it is `hi`,
/// with nothing wanted before it.
pub proof fn lemma_first_where(s: Seq<char>, lo: int, hi: int, wanted: spec_fn(char) -> bool)
    requires
        0 <= lo <= hi <= s.len(),
    ensures
        lo <= first_where(s, lo, hi, wanted) <= hi,
        first_where(s, lo, hi, wanted) < hi ==> wanted(s[first_where(s, lo, hi, wanted)]),
        forall|i: int| lo <= i < first_where(s, lo, hi, wanted) ==> !wanted(#[trigger] s[i]),
    decreases hi - lo,
{
    if lo < hi && !wanted(s[lo]) {
        lemma_first_where(s, lo + 1, hi, wanted);
    }
}

/// The first index in `lo..hi` holding `target`, or `hi`.
pub fn find_char(s: &[char], lo: usize, hi: usize, target: char) -> (r: usize)
    requires
        lo <= hi <= s@.len(),
    ensures
        r == first_where(s@, lo as int, hi as int, |c: char| c == target),
        lo <= r <= hi,
{
    let mut i: usize = lo;
    while i < hi && s[i] != target
        invariant
            lo <= i <= hi <= s@.len(),
            first_where(s@, lo as int, hi as int, |c: char| c == target) == first_where(
                s@,
                i as int,
                hi as int,
                |c: char| c == target,
            ),
        decreases hi - i,
    {
        i += 1;
    }
    i
}

/// The first index in `lo..hi` at which `stop` holds, or `hi` where there
/// is none.
pub open spec fn first_index(lo: int, hi: int, stop: spec_fn(int) -> bool) -> int
    decreases hi - lo,
{
    if lo >= hi {
        hi
    } else if stop(lo) {
        lo
    } else {
        first_index(lo + 1, hi, stop)
    }
}

/// What `first_index` returns: an index in range, at which `stop` holds
/// unless it is `hi`, with no such index before it.
pub proof fn lemma_first_index(lo: int, hi: int, stop: spec_fn(int) -> bool)
    requires
        lo <= hi,
    ensures
        lo <= first_index(lo, hi, stop) <= hi,
        first_index(lo, hi, stop) < hi ==> stop(first_index(lo, hi, stop)),
        forall|i: int| lo <= i < first_index(lo, hi, stop) ==> !#[trigger] stop(i),
    decreases hi - lo,
{
    if lo < hi && !stop(lo) {
        lemma_first_index(lo + 1, hi, stop);
    }
}

/// A slice holds no more elements than a `usize` can count.
pub proof fn lemma_slice_fits<T>(s: &[T])
    ensures
        s@.len() <= usize::MAX,
{
    assert(s@.len() == s.len());
}

/// A vector holds no more elements than a `usize` can count.
pub proof fn lemma_vec_fits<T>(v: &Vec<T>)
    ensures
        v@.len() <= usize::MAX,
{
    assert(v@.len() == v.len());
}

} // verus!
