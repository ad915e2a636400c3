//! The order of strings that `str::cmp` uses, and the stable sort and the
//! deduplication that GPU discovery applies to its readers.

use vstd::prelude::*;
use vstd::string::*;
use crate::text::chars_of;

verus! {

/// `a` comes before `b` in the order of `str::cmp`: code point by code
/// point, a proper prefix first. (UTF-8 keeps code point order, so comparing
/// the bytes, as `str::cmp` does, gives the same order.)
pub open spec fn name_less(a: Seq<char>, b: Seq<char>) -> bool
    decreases a.len(),
{
    if a.len() == 0 {
        b.len() > 0
    } else if b.len() == 0 {
        false
    } else if a[0] != b[0] {
        (a[0] as u32) < (b[0] as u32)
    } else {
        name_less(a.drop_first(), b.drop_first())
    }
}

pub proof fn lemma_name_less_irreflexive(a: Seq<char>)
    ensures
        !name_less(a, a),
    decreases a.len(),
{
    if a.len() > 0 {
        lemma_name_less_irreflexive(a.drop_first());
    }
}

pub proof fn lemma_name_less_transitive(a: Seq<char>, b: Seq<char>, c: Seq<char>)
    requires
        name_less(a, b),
        name_less(b, c),
    ensures
        name_less(a, c),
    decreases a.len(),
{
    if a.len() > 0 && b.len() > 0 && c.len() > 0 && a[0] == b[0] && b[0] == c[0] {
        lemma_name_less_transitive(a.drop_first(), b.drop_first(), c.drop_first());
    }
}

pub proof fn lemma_name_less_total(a: Seq<char>, b: Seq<char>)
    ensures
        name_less(a, b) || name_less(b, a) || a == b,
    decreases a.len(),
{
    if a.len() > 0 && b.len() > 0 {
        if a[0] == b[0] {
            lemma_name_less_total(a.drop_first(), b.drop_first());
            if a.drop_first() == b.drop_first() {
                assert(a =~= seq![a[0]] + a.drop_first());
                assert(b =~= seq![b[0]] + b.drop_first());
            }
        } else {
            vstd::utf8::char_u32_cast(a[0], a[0] as u32);
            vstd::utf8::char_u32_cast(b[0], b[0] as u32);
        }
    } else if a.len() == 0 && b.len() == 0 {
        assert(a =~= b);
    }
}

/// `str::cmp`'s order, stated without recursion: where two names first
/// differ at position `i` (having the first `i` characters in common), the
/// one whose character there has the smaller code point comes first.
pub proof fn law_name_less_first_difference(a: Seq<char>, b: Seq<char>, i: int)
    requires
        0 <= i < a.len(),
        i < b.len(),
        a.take(i) == b.take(i),
        a[i] != b[i],
    ensures
        name_less(a, b) <==> (a[i] as u32) < (b[i] as u32),
        name_less(b, a) <==> (b[i] as u32) < (a[i] as u32),
    decreases i,
{
    if i > 0 {
        assert(a[0] == a.take(i)[0] && b[0] == b.take(i)[0]);
        let a1 = a.drop_first();
        let b1 = b.drop_first();
        assert(a1.take(i - 1) =~= a.take(i).drop_first());
        assert(b1.take(i - 1) =~= b.take(i).drop_first());
        assert(a1[i - 1] == a[i] && b1[i - 1] == b[i]);
        law_name_less_first_difference(a1, b1, i - 1);
    }
}

/// A proper prefix comes first, and a name never comes before one of its
/// prefixes (itself included).
pub proof fn law_name_less_prefix(a: Seq<char>, b: Seq<char>)
    ensures
        a.len() < b.len() && b.take(a.len() as int) == a ==> name_less(a, b),
        b.len() <= a.len() && a.take(b.len() as int) == b ==> !name_less(a, b),
    decreases a.len(),
{
    if a.len() > 0 && b.len() > 0 {
        let a1 = a.drop_first();
        let b1 = b.drop_first();
        if a.len() < b.len() && b.take(a.len() as int) == a {
            assert(b[0] == b.take(a.len() as int)[0]);
            assert(b1.take(a1.len() as int) =~= b.take(a.len() as int).drop_first());
        }
        if b.len() <= a.len() && a.take(b.len() as int) == b {
            assert(a[0] == a.take(b.len() as int)[0]);
            assert(a1.take(b1.len() as int) =~= a.take(b.len() as int).drop_first());
        }
        law_name_less_prefix(a1, b1);
    }
}

/// Whether `a` comes before `b` in the order of `str::cmp`.
pub fn str_less(a: &str, b: &str) -> (r: bool)
    ensures
        r == name_less(a@, b@),
{
    let x = chars_of(a);
    let y = chars_of(b);
    let mut i: usize = 0;
    assert(a@.skip(0) =~= a@);
    assert(b@.skip(0) =~= b@);
    while i < x.len() && i < y.len() && x[i] == y[i]
        invariant
            i <= x@.len(),
            i <= y@.len(),
            x@ == a@,
            y@ == b@,
            name_less(a@, b@) == name_less(a@.skip(i as int), b@.skip(i as int)),
        decreases x.len() - i,
    {
        let ghost sa = a@.skip(i as int);
        let ghost sb = b@.skip(i as int);
        assert(sa.drop_first() =~= a@.skip(i + 1));
        assert(sb.drop_first() =~= b@.skip(i + 1));
        i = i + 1;
    }
    let ghost sa = a@.skip(i as int);
    let ghost sb = b@.skip(i as int);
    if i == x.len() {
        i < y.len()
    } else if i == y.len() {
        false
    } else {
        assert(sa[0] == x@[i as int] && sb[0] == y@[i as int]);
        (x[i] as u32) < (y[i] as u32)
    }
}

} // verus!
