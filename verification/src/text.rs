//! Character-level helpers on strings, each with an exact contract over the
//! string's view as a sequence of `char`.

use vstd::prelude::*;
use vstd::string::*;

verus! {

/// `String::push` appends one character to the end of the string.
pub assume_specification[ String::push ](s: &mut String, ch: char)
    ensures
        final(s)@ == old(s)@.push(ch),
;

/// The characters of `s`, in order.
pub fn chars_of(s: &str) -> (v: Vec<char>)
    ensures
        v@ == s@,
{
    let n = s.unicode_len();
    let mut v: Vec<char> = Vec::new();
    let mut i: usize = 0;
    while i < n
        invariant
            n == s@.len(),
            i <= n,
            v@ == s@.take(i as int),
        decreases n - i,
    {
        let c = s.get_char(i);
        v.push(c);
        i = i + 1;
        assert(v@ =~= s@.take(i as int));
    }
    assert(v@ =~= s@);
    v
}

/// A string holding exactly the characters of `v`.
pub fn string_of(v: &Vec<char>) -> (s: String)
    ensures
        s@ == v@,
{
    let mut s = String::new();
    let mut i: usize = 0;
    while i < v.len()
        invariant
            i <= v.len(),
            s@ == v@.take(i as int),
        decreases v.len() - i,
    {
        s.push(v[i]);
        i = i + 1;
        assert(s@ =~= v@.take(i as int));
    }
    assert(v@.take(v@.len() as int) =~= v@);
    s
}

/// Unicode `White_Space`, the set that `char::is_whitespace` and `str::trim`
/// use.
pub open spec fn spec_is_whitespace(c: char) -> bool {
    let n = c as u32;
    ||| 0x09 <= n <= 0x0d
    ||| n == 0x20
    ||| n == 0x85
    ||| n == 0xa0
    ||| n == 0x1680
    ||| 0x2000 <= n <= 0x200a
    ||| n == 0x2028
    ||| n == 0x2029
    ||| n == 0x202f
    ||| n == 0x205f
    ||| n == 0x3000
}

pub fn is_whitespace(c: char) -> (r: bool)
    ensures
        r == spec_is_whitespace(c),
{
    let n = c as u32;
    (0x09 <= n && n <= 0x0d) || n == 0x20 || n == 0x85 || n == 0xa0 || n == 0x1680 || (0x2000
        <= n && n <= 0x200a) || n == 0x2028 || n == 0x2029 || n == 0x202f || n == 0x205f || n
        == 0x3000
}

/// The number of whitespace characters at the start of `s`.
pub open spec fn leading_ws(s: Seq<char>) -> nat
    decreases s.len(),
{
    if s.len() > 0 && spec_is_whitespace(s[0]) {
        1 + leading_ws(s.drop_first())
    } else {
        0
    }
}

/// The number of whitespace characters at the end of `s`.
pub open spec fn trailing_ws(s: Seq<char>) -> nat
    decreases s.len(),
{
    if s.len() > 0 && spec_is_whitespace(s.last()) {
        1 + trailing_ws(s.drop_last())
    } else {
        0
    }
}

/// `s` without its leading and trailing whitespace, as `str::trim` gives it.
pub open spec fn spec_trim(s: Seq<char>) -> Seq<char> {
    let t = s.skip(leading_ws(s) as int);
    t.take(t.len() - trailing_ws(t))
}

proof fn lemma_leading_ws(s: Seq<char>, k: int)
    requires
        0 <= k <= s.len(),
        forall|i: int| 0 <= i < k ==> spec_is_whitespace(#[trigger] s[i]),
        k == s.len() || !spec_is_whitespace(s[k]),
    ensures
        leading_ws(s) == k,
    decreases k,
{
    if k > 0 {
        let t = s.drop_first();
        assert forall|i: int| 0 <= i < k - 1 implies spec_is_whitespace(#[trigger] t[i]) by {
            assert(t[i] == s[i + 1]);
        }
        lemma_leading_ws(t, k - 1);
    }
}

proof fn lemma_trailing_ws(s: Seq<char>, k: int)
    requires
        0 <= k <= s.len(),
        forall|i: int| s.len() - k <= i < s.len() ==> spec_is_whitespace(#[trigger] s[i]),
        k == s.len() || !spec_is_whitespace(s[s.len() - 1 - k]),
    ensures
        trailing_ws(s) == k,
    decreases k,
{
    if k > 0 {
        let t = s.drop_last();
        assert(spec_is_whitespace(s[s.len() - 1]));
        assert forall|i: int| t.len() - (k - 1) <= i < t.len() implies spec_is_whitespace(
            #[trigger] t[i],
        ) by {
            assert(t[i] == s[i]);
        }
        if k - 1 < t.len() {
            assert(t[t.len() - 1 - (k - 1)] == s[s.len() - 1 - k]);
        }
        lemma_trailing_ws(t, k - 1);
    }
}

/// `v` without its leading and trailing whitespace.
pub fn trim_chars(v: &Vec<char>) -> (r: Vec<char>)
    ensures
        r@ == spec_trim(v@),
{
    let n = v.len();
    let mut start: usize = 0;
    while start < n && is_whitespace(v[start])
        invariant
            n == v@.len(),
            start <= n,
            forall|i: int| 0 <= i < start ==> spec_is_whitespace(#[trigger] v@[i]),
        decreases n - start,
    {
        start = start + 1;
    }
    proof {
        lemma_leading_ws(v@, start as int);
    }
    let ghost t = v@.skip(start as int);
    let mut end: usize = n;
    while end > start && is_whitespace(v[end - 1])
        invariant
            n == v@.len(),
            start <= end <= n,
            t == v@.skip(start as int),
            forall|i: int| end <= i < n ==> spec_is_whitespace(#[trigger] v@[i]),
        decreases end - start,
    {
        end = end - 1;
    }
    proof {
        assert forall|i: int| t.len() - (n - end) <= i < t.len() implies spec_is_whitespace(
            #[trigger] t[i],
        ) by {
            assert(t[i] == v@[i + start]);
        }
        if n - end < t.len() {
            assert(t[t.len() - 1 - (n - end)] == v@[end - 1]);
        }
        lemma_trailing_ws(t, (n - end) as int);
    }
    let mut r: Vec<char> = Vec::new();
    let mut i: usize = start;
    while i < end
        invariant
            start <= i <= end <= n,
            n == v@.len(),
            r@ == v@.subrange(start as int, i as int),
        decreases end - i,
    {
        r.push(v[i]);
        i = i + 1;
        assert(r@ =~= v@.subrange(start as int, i as int));
    }
    assert(r@ =~= t.take(t.len() - trailing_ws(t)));
    r
}

/// `s` without its leading and trailing whitespace, as `str::trim` gives it.
pub fn trim(s: &str) -> (r: String)
    ensures
        r@ == spec_trim(s@),
{
    let v = chars_of(s);
    let t = trim_chars(&v);
    string_of(&t)
}

/// `p` occurs in `s` starting at position `i`.
pub open spec fn occurs_at(s: Seq<char>, p: Seq<char>, i: int) -> bool {
    0 <= i && i + p.len() <= s.len() && s.subrange(i, i + p.len()) == p
}

/// `str::starts_with` with a string pattern.
pub open spec fn spec_starts_with(s: Seq<char>, p: Seq<char>) -> bool {
    occurs_at(s, p, 0)
}

/// `str::ends_with` with a string pattern.
pub open spec fn spec_ends_with(s: Seq<char>, p: Seq<char>) -> bool {
    occurs_at(s, p, s.len() - p.len())
}

/// `str::contains` with a string pattern.
pub open spec fn spec_contains(s: Seq<char>, p: Seq<char>) -> bool {
    exists|i: int| occurs_at(s, p, i)
}

/// Whether `p` occurs in `s` at position `i`.
pub fn matches_at(s: &Vec<char>, p: &Vec<char>, i: usize) -> (r: bool)
    ensures
        r == occurs_at(s@, p@, i as int),
{
    if i > s.len() || p.len() > s.len() - i {
        return false;
    }
    let mut j: usize = 0;
    while j < p.len()
        invariant
            i + p@.len() <= s@.len(),
            i + p.len() <= s.len(),
            j <= p@.len(),
            forall|k: int| 0 <= k < j ==> s@[i + k] == p@[k],
        decreases p.len() - j,
    {
        if s[i + j] != p[j] {
            assert(s@.subrange(i as int, i + p@.len())[j as int] != p@[j as int]);
            return false;
        }
        j = j + 1;
    }
    assert(s@.subrange(i as int, i + p@.len()) =~= p@);
    true
}

pub fn starts_with(s: &Vec<char>, p: &Vec<char>) -> (r: bool)
    ensures
        r == spec_starts_with(s@, p@),
{
    matches_at(s, p, 0)
}

pub fn ends_with(s: &Vec<char>, p: &Vec<char>) -> (r: bool)
    ensures
        r == spec_ends_with(s@, p@),
{
    if p.len() > s.len() {
        false
    } else {
        matches_at(s, p, s.len() - p.len())
    }
}

pub fn contains(s: &Vec<char>, p: &Vec<char>) -> (r: bool)
    ensures
        r == spec_contains(s@, p@),
{
    if p.len() > s.len() {
        return false;
    }
    let last = s.len() - p.len();
    let mut i: usize = 0;
    loop
        invariant
            last == s@.len() - p@.len(),
            i <= last,
            forall|k: int| 0 <= k < i ==> !occurs_at(s@, p@, k),
        decreases last - i,
    {
        if matches_at(s, p, i) {
            return true;
        }
        if i == last {
            assert forall|k: int| !occurs_at(s@, p@, k) by {
                if 0 <= k <= last && k != i {
                    assert(k < i);
                }
            }
            return false;
        }
        i = i + 1;
    }
}

proof fn lemma_leading_ws_facts(s: Seq<char>)
    ensures
        leading_ws(s) <= s.len(),
        forall|i: int| 0 <= i < leading_ws(s) ==> spec_is_whitespace(#[trigger] s[i]),
        leading_ws(s) < s.len() ==> !spec_is_whitespace(s[leading_ws(s) as int]),
    decreases s.len(),
{
    if s.len() > 0 && spec_is_whitespace(s[0]) {
        let t = s.drop_first();
        lemma_leading_ws_facts(t);
        assert forall|i: int| 0 <= i < leading_ws(s) implies spec_is_whitespace(#[trigger] s[i]) by {
            if i > 0 {
                assert(s[i] == t[i - 1]);
            }
        }
        if leading_ws(s) < s.len() {
            assert(s[leading_ws(s) as int] == t[leading_ws(t) as int]);
        }
    }
}

proof fn lemma_trailing_ws_facts(s: Seq<char>)
    ensures
        trailing_ws(s) <= s.len(),
        forall|i: int| s.len() - trailing_ws(s) <= i < s.len() ==> spec_is_whitespace(#[trigger] s[i]),
        trailing_ws(s) < s.len() ==> !spec_is_whitespace(s[s.len() - 1 - trailing_ws(s)]),
    decreases s.len(),
{
    if s.len() > 0 && spec_is_whitespace(s.last()) {
        let t = s.drop_last();
        lemma_trailing_ws_facts(t);
        assert forall|i: int| s.len() - trailing_ws(s) <= i < s.len() implies spec_is_whitespace(
            #[trigger] s[i],
        ) by {
            if i < s.len() - 1 {
                assert(s[i] == t[i]);
            }
        }
        if trailing_ws(s) < s.len() {
            assert(s[s.len() - 1 - trailing_ws(s)] == t[t.len() - 1 - trailing_ws(t)]);
        }
    }
}

/// `str::trim` removes exactly the whitespace at both ends: the input is
/// whitespace, then the result, then whitespace; the result neither starts
/// nor ends with whitespace; and trimming it again changes nothing.
pub proof fn law_trim(s: Seq<char>)
    ensures
        ({
            let t = spec_trim(s);
            let a = leading_ws(s) as int;
            &&& s.subrange(a, a + t.len()) == t
            &&& forall|i: int| 0 <= i < a ==> spec_is_whitespace(#[trigger] s[i])
            &&& forall|i: int| a + t.len() <= i < s.len() ==> spec_is_whitespace(#[trigger] s[i])
            &&& t.len() > 0 ==> !spec_is_whitespace(t[0]) && !spec_is_whitespace(t.last())
            &&& spec_trim(t) == t
        }),
{
    let a = leading_ws(s) as int;
    lemma_leading_ws_facts(s);
    let u = s.skip(a);
    lemma_trailing_ws_facts(u);
    let t = spec_trim(s);
    assert(t == u.take(u.len() - trailing_ws(u)));
    assert(s.subrange(a, a + t.len()) =~= t);
    assert forall|i: int| a + t.len() <= i < s.len() implies spec_is_whitespace(#[trigger] s[i]) by {
        assert(s[i] == u[i - a]);
    }
    if t.len() > 0 {
        assert(t[0] == s[a]);
        assert(t.last() == u[u.len() - 1 - trailing_ws(u)]);
        lemma_leading_ws(t, 0);
        assert(t.skip(0) =~= t);
        lemma_trailing_ws(t, 0);
        assert(t.take(t.len() as int) =~= t);
    } else {
        assert(leading_ws(t) == 0);
        assert(t.skip(0) =~= t);
        assert(trailing_ws(t) == 0);
        assert(t.take(0) =~= t);
    }
}

/// In ASCII, whitespace is the space, tab, line feed, vertical tab, form
/// feed and carriage return, and no visible character; no-break space,
/// ideographic space and the line separator are whitespace too.
pub proof fn law_whitespace(c: char)
    ensures
        (c as u32) < 0x80 ==> (spec_is_whitespace(c) <==> (c == ' ' || c == '\t' || c == '\n'
            || c as u32 == 0x0b || c as u32 == 0x0c || c == '\r')),
        0x21 <= (c as u32) <= 0x7e ==> !spec_is_whitespace(c),
        (c as u32) == 0xa0 || (c as u32) == 0x3000 || (c as u32) == 0x2028 ==> spec_is_whitespace(c),
{
}

} // verus!
