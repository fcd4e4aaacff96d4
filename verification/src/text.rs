//! Strings as sequences of characters: the conversions and tests that the
//! extractors are built from.

use vstd::prelude::*;
use vstd::std_specs::iter::IteratorSpec;

verus! {

/// `String::push` of the standard library: the string grows by exactly the
/// given character, at its end.
pub assume_specification[ String::push ](s: &mut String, c: char)
    ensures
        final(s)@ == old(s)@.push(c),
;

/// The characters of `s`, in order.
pub fn chars_of(s: &str) -> (v: Vec<char>)
    ensures
        v@ == s@,
{
    let mut v: Vec<char> = Vec::new();
    let mut it = s.chars();
    loop
        invariant_except_break
            it.obeys_prophetic_iter_laws(),
            v@ + it.remaining() == s@,
            it.decrease() is Some,
        ensures
            v@ == s@,
        decreases it.decrease()->0,
    {
        match it.next() {
            Some(c) => {
                v.push(c);
            },
            None => {
                break ;
            },
        }
    }
    v
}

/// The string made of the characters of `v`, in order.
pub fn string_of(v: &Vec<char>) -> (s: String)
    ensures
        s@ == v@,
{
    let mut s = String::new();
    let mut i: usize = 0;
    while i < v.len()
        invariant
            i <= v.len(),
            s@ == v@.subrange(0, i as int),
        decreases v.len() - i,
    {
        s.push(v[i]);
        i += 1;
    }
    s
}

/// An owned copy of `s`.
pub fn owned(s: &str) -> (r: String)
    ensures
        r@ == s@,
{
    string_of(&chars_of(s))
}

/// Whether the `n` characters of `a` from `from` on are the first `n` of `b`.
fn same_run(a: &Vec<char>, from: usize, b: &Vec<char>, n: usize) -> (r: bool)
    requires
        from + n <= a.len(),
        n <= b.len(),
    ensures
        r == (a@.subrange(from as int, from + n) =~= b@.subrange(0, n as int)),
{
    let mut i: usize = 0;
    while i < n
        invariant
            i <= n,
            from + n <= a.len(),
            n <= b.len(),
            forall|j: int| 0 <= j < i ==> a@[from + j] == b@[j],
        decreases n - i,
    {
        if a[from + i] != b[i] {
            proof {
                let x = a@.subrange(from as int, from + n);
                let y = b@.subrange(0, n as int);
                assert(x[i as int] != y[i as int]);
            }
            return false;
        }
        i += 1;
    }
    true
}

/// Whether `s` begins with `prefix`.
pub fn starts_with(s: &str, prefix: &str) -> (r: bool)
    ensures
        r == prefix@.is_prefix_of(s@),
{
    let a = chars_of(s);
    let b = chars_of(prefix);
    if b.len() > a.len() {
        return false;
    }
    let r = same_run(&a, 0, &b, b.len());
    proof {
        assert(b@.subrange(0, b@.len() as int) =~= b@);
    }
    r
}

/// Whether `s` ends with `suffix`.
pub fn ends_with(s: &str, suffix: &str) -> (r: bool)
    ensures
        r == suffix@.is_suffix_of(s@),
{
    let a = chars_of(s);
    let b = chars_of(suffix);
    if b.len() > a.len() {
        return false;
    }
    let r = same_run(&a, a.len() - b.len(), &b, b.len());
    proof {
        assert(b@.subrange(0, b@.len() as int) =~= b@);
    }
    r
}

/// Whether `a` and `b` hold the same characters.
pub fn same_text(a: &str, b: &str) -> (r: bool)
    ensures
        r == (a@ == b@),
{
    let x = chars_of(a);
    let y = chars_of(b);
    if x.len() != y.len() {
        return false;
    }
    let r = same_run(&x, 0, &y, y.len());
    proof {
        assert(x@.subrange(0, x@.len() as int) =~= x@);
        assert(y@.subrange(0, y@.len() as int) =~= y@);
    }
    r
}

/// The views of a sequence of strings.
pub open spec fn texts_of(v: Seq<String>) -> Seq<Seq<char>> {
    v.map_values(|s: String| s@)
}

/// The view of a string that may be absent.
pub open spec fn text_of(o: Option<String>) -> Option<Seq<char>> {
    match o {
        Some(s) => Some(s@),
        None => None,
    }
}

} // verus!
