//! Text helpers shared by the whole crate: splitting a text around a separator
//! and comparing texts character by character.

use vstd::prelude::*;
use vstd::string::{StrSliceExecFns, StringExecFns};

verus! {

/// `sep` occurs in `s` starting at position `i`.
pub open spec fn occurs_at(s: Seq<char>, sep: Seq<char>, i: int) -> bool {
    &&& 0 <= i
    &&& i + sep.len() <= s.len()
    &&& s.subrange(i, i + sep.len()) == sep
}

/// Position of the first occurrence of `sep` in `s` at or after `from`,
/// or `-1` when there is none.
pub open spec fn first_occurrence_from(s: Seq<char>, sep: Seq<char>, from: int) -> int
    decreases s.len() + 1 - from,
{
    if from < 0 || from + sep.len() > s.len() {
        -1
    } else if occurs_at(s, sep, from) {
        from
    } else {
        first_occurrence_from(s, sep, from + 1)
    }
}

/// Position of the first occurrence of `sep` in `s`, or `-1`.
pub open spec fn first_occurrence(s: Seq<char>, sep: Seq<char>) -> int {
    first_occurrence_from(s, sep, 0)
}

/// The two sides of `s` around the first occurrence of `sep`, neither holding
/// `sep`. Without an occurrence the left side is empty and the right side is `s`.
pub open spec fn split_lr_spec(s: Seq<char>, sep: Seq<char>) -> (Seq<char>, Seq<char>) {
    let i = first_occurrence(s, sep);
    if i >= 0 {
        (s.subrange(0, i), s.subrange(i + sep.len(), s.len() as int))
    } else {
        (Seq::<char>::empty(), s)
    }
}

/// What `first_occurrence_from` finds is an occurrence, and the earliest one
/// from `from` on; `-1` means there is none from `from` on.
pub proof fn lemma_first_occurrence_from(s: Seq<char>, sep: Seq<char>, from: int)
    requires
        0 <= from,
    ensures
        ({
            let r = first_occurrence_from(s, sep, from);
            &&& r == -1 || (from <= r && occurs_at(s, sep, r))
            &&& forall|j: int| from <= j && (r == -1 || j < r) ==> !occurs_at(s, sep, j)
        }),
    decreases s.len() + 1 - from,
{
    if from + sep.len() <= s.len() && !occurs_at(s, sep, from) {
        lemma_first_occurrence_from(s, sep, from + 1);
    }
}

/// The first occurrence is the least position at which `sep` occurs in `s`.
pub proof fn lemma_first_occurrence_is_least(s: Seq<char>, sep: Seq<char>)
    ensures
        ({
            let r = first_occurrence(s, sep);
            &&& r == -1 || occurs_at(s, sep, r)
            &&& forall|j: int| (r == -1 || j < r) ==> !occurs_at(s, sep, j)
        }),
{
    lemma_first_occurrence_from(s, sep, 0);
}

/// A split that found the separator puts the text back together:
/// left side, separator, right side.
pub proof fn lemma_split_lr_rejoins(s: Seq<char>, sep: Seq<char>)
    requires
        first_occurrence(s, sep) >= 0,
    ensures
        split_lr_spec(s, sep).0 + sep + split_lr_spec(s, sep).1 == s,
{
    lemma_first_occurrence_is_least(s, sep);
    let i = first_occurrence(s, sep);
}

/// A text made of a left side without the character `c`, then `c`, then a
/// right side, splits around `c` into these two sides.
pub proof fn lemma_split_lr_of_joined(left: Seq<char>, c: char, right: Seq<char>)
    requires
        !left.contains(c),
    ensures
        split_lr_spec(left + seq![c] + right, seq![c]) == (left, right),
{
    let s = left + seq![c] + right;
    let sep = seq![c];
    let i = left.len() as int;
    lemma_first_occurrence_is_least(s, sep);
    assert(s.subrange(i, i + 1) =~= sep);
    assert(occurs_at(s, sep, i));
    let r = first_occurrence(s, sep);
    if 0 <= r < i {
        assert(s.subrange(r, r + 1)[0] == s[r]);
    }
}

/// Collects the characters of `s` into a vector.
pub fn chars_of(s: &str) -> (v: Vec<char>)
    ensures
        v@ == s@,
{
    let mut v: Vec<char> = Vec::new();
    for c in it: s.chars()
        invariant
            v@ == it.seq().take(it.index() as int),
            it.seq() == s@,
    {
        v.push(c);
    }
    v
}

/// Whether `sep` occurs in `s` at position `i`.
fn occurs_at_exec(s: &Vec<char>, sep: &Vec<char>, i: usize) -> (b: bool)
    requires
        i + sep@.len() <= s@.len(),
    ensures
        b == occurs_at(s@, sep@, i as int),
{
    let mut k: usize = 0;
    while k < sep.len()
        invariant
            k <= sep@.len(),
            i + sep@.len() <= s@.len(),
            s@.len() == s.len(),
            forall|j: int| 0 <= j < k ==> s@[i + j] == sep@[j],
        decreases sep@.len() - k,
    {
        if s[i + k] != sep[k] {
            return false;
        }
        k += 1;
    }
    assert(s@.subrange(i as int, i + sep@.len()) =~= sep@);
    true
}

/// Position of the first occurrence of `sep` in `s`, if there is one.
pub fn find_first(s: &Vec<char>, sep: &Vec<char>) -> (r: Option<usize>)
    ensures
        match r {
            Some(i) => first_occurrence(s@, sep@) == i as int,
            None => first_occurrence(s@, sep@) == -1,
        },
{
    if sep.len() > s.len() {
        return None;
    }
    let last: usize = s.len() - sep.len();
    let mut i: usize = 0;
    loop
        invariant
            last == s@.len() - sep@.len(),
            i <= last,
            first_occurrence(s@, sep@) == first_occurrence_from(s@, sep@, i as int),
        decreases last - i,
    {
        if occurs_at_exec(s, sep, i) {
            return Some(i);
        }
        if i == last {
            assert(first_occurrence_from(s@, sep@, i + 1) == -1);
            return None;
        }
        i += 1;
    }
}

/// Whether two texts hold the same characters.
pub fn same_text(a: &str, b: &str) -> (r: bool)
    ensures
        r == (a@ == b@),
{
    let x = chars_of(a);
    let y = chars_of(b);
    if x.len() != y.len() {
        return false;
    }
    let mut i: usize = 0;
    while i < x.len()
        invariant
            x@ == a@,
            y@ == b@,
            x@.len() == y@.len(),
            i <= x@.len(),
            forall|j: int| 0 <= j < i ==> x@[j] == y@[j],
        decreases x@.len() - i,
    {
        if x[i] != y[i] {
            return false;
        }
        i += 1;
    }
    assert(x@ =~= y@);
    true
}

/// `a` followed by `b`.
pub fn join_text(a: &str, b: &str) -> (r: String)
    ensures
        r@ == a@ + b@,
{
    let mut out = String::from_str(a);
    out.append(b);
    out
}

/// Splits `source` around the first occurrence of `sep`: what stands before
/// it and what stands after it. Without an occurrence the left side is empty
/// and the right side is `source`.
pub fn split_lr<'a>(source: &'a str, sep: &str) -> (r: (&'a str, &'a str))
    ensures
        r.0@ == split_lr_spec(source@, sep@).0,
        r.1@ == split_lr_spec(source@, sep@).1,
{
    let s = chars_of(source);
    let p = chars_of(sep);
    match find_first(&s, &p) {
        Some(i) => {
            proof {
                lemma_first_occurrence_is_least(source@, sep@);
            }
            let n = s.len();
            (source.substring_char(0, i), source.substring_char(i + p.len(), n))
        },
        None => {
            let l = source.substring_char(0, 0);
            (l, source)
        },
    }
}

} // verus!
