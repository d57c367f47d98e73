//! Comparing and searching text character by character.

use vstd::prelude::*;
use vstd::string::*;

verus! {

/// `a` comes no later than `b` in lexicographic order of their characters'
/// code points (the order of `str`'s `cmp`, which compares UTF-8 bytes, and
/// the UTF-8 encoding keeps the order of code points).
pub open spec fn text_le(a: Seq<char>, b: Seq<char>) -> bool
    decreases a.len(),
{
    if a.len() == 0 {
        true
    } else if b.len() == 0 {
        false
    } else if (a[0] as u32) < (b[0] as u32) {
        true
    } else if (a[0] as u32) > (b[0] as u32) {
        false
    } else {
        text_le(a.drop_first(), b.drop_first())
    }
}

/// `needle` occurs in `hay` as a run of consecutive characters.
pub open spec fn occurs_in(needle: Seq<char>, hay: Seq<char>) -> bool {
    exists|i: int|
        0 <= i && i + needle.len() <= hay.len() && #[trigger] hay.subrange(i, i + needle.len())
            == needle
}

/// Of any two texts, one comes no later than the other.
pub proof fn lemma_text_le_total(a: Seq<char>, b: Seq<char>)
    ensures
        text_le(a, b) || text_le(b, a),
    decreases a.len(),
{
    if a.len() > 0 && b.len() > 0 && (a[0] as u32) == (b[0] as u32) {
        lemma_text_le_total(a.drop_first(), b.drop_first());
    }
}

/// The order of texts is transitive.
pub proof fn lemma_text_le_transitive(a: Seq<char>, b: Seq<char>, c: Seq<char>)
    requires
        text_le(a, b),
        text_le(b, c),
    ensures
        text_le(a, c),
    decreases a.len(),
{
    if a.len() > 0 && b.len() > 0 && c.len() > 0 && (a[0] as u32) == (b[0] as u32) && (b[0] as u32)
        == (c[0] as u32) {
        lemma_text_le_transitive(a.drop_first(), b.drop_first(), c.drop_first());
    }
}

/// Where a text occurs, so does each of its prefixes.
pub proof fn lemma_prefix_occurs(a: Seq<char>, b: Seq<char>, hay: Seq<char>)
    requires
        occurs_in(a + b, hay),
    ensures
        occurs_in(a, hay),
{
    let ab = a + b;
    let i = choose|i: int|
        0 <= i && i + ab.len() <= hay.len() && #[trigger] hay.subrange(i, i + ab.len()) == ab;
    assert(hay.subrange(i, i + a.len()) =~= ab.subrange(0, a.len() as int));
    assert(ab.subrange(0, a.len() as int) =~= a);
}

/// The order of texts is lexicographic: `a` comes no later than `b` exactly
/// where `a` is a prefix of `b`, or where at the first position at which their
/// characters differ, `a`'s has the smaller code point.
pub proof fn lemma_text_le_is_lexicographic(a: Seq<char>, b: Seq<char>)
    ensures
        text_le(a, b) == ((a.len() <= b.len() && forall|j: int|
            0 <= j < a.len() ==> (#[trigger] a[j] as u32) == (b[j] as u32)) || exists|i: int|
            0 <= i < a.len() && i < b.len() && (forall|j: int|
                0 <= j < i ==> (#[trigger] a[j] as u32) == (b[j] as u32)) && (a[i] as u32) < (
            b[i] as u32)),
    decreases a.len(),
{
    if a.len() == 0 {
    } else if b.len() == 0 {
    } else if (a[0] as u32) < (b[0] as u32) {
        assert(forall|j: int| 0 <= j < 0 ==> (#[trigger] a[j] as u32) == (b[j] as u32));
    } else if (a[0] as u32) > (b[0] as u32) {
        assert forall|i: int|
            0 <= i < a.len() && i < b.len() && (forall|j: int|
                0 <= j < i ==> (#[trigger] a[j] as u32) == (b[j] as u32)) implies !((a[i] as u32) < (
            b[i] as u32)) by {
            if i > 0 {
                assert((a[0] as u32) == (b[0] as u32));
            }
        }
        assert(!(forall|j: int| 0 <= j < a.len() ==> (#[trigger] a[j] as u32) == (b[j] as u32))) by {
            assert(!((a[0] as u32) == (b[0] as u32)));
        }
    } else {
        let a1 = a.drop_first();
        let b1 = b.drop_first();
        lemma_text_le_is_lexicographic(a1, b1);
        let pre = a.len() <= b.len() && forall|j: int|
            0 <= j < a.len() ==> (#[trigger] a[j] as u32) == (b[j] as u32);
        let pre1 = a1.len() <= b1.len() && forall|j: int|
            0 <= j < a1.len() ==> (#[trigger] a1[j] as u32) == (b1[j] as u32);
        assert(pre == pre1) by {
            if pre1 {
                assert forall|j: int| 0 <= j < a.len() implies (#[trigger] a[j] as u32) == (b[j] as u32) by {
                    if j > 0 {
                        assert(a[j] == a1[j - 1]);
                        assert(b[j] == b1[j - 1]);
                    }
                }
            }
            if pre {
                assert forall|j: int| 0 <= j < a1.len() implies (#[trigger] a1[j] as u32) == (b1[j] as u32) by {
                    assert(a1[j] == a[j + 1]);
                    assert(b1[j] == b[j + 1]);
                }
            }
        }
        let ex = exists|i: int|
            0 <= i < a.len() && i < b.len() && (forall|j: int|
                0 <= j < i ==> (#[trigger] a[j] as u32) == (b[j] as u32)) && (a[i] as u32) < (
            b[i] as u32);
        let ex1 = exists|i: int|
            0 <= i < a1.len() && i < b1.len() && (forall|j: int|
                0 <= j < i ==> (#[trigger] a1[j] as u32) == (b1[j] as u32)) && (a1[i] as u32) < (
            b1[i] as u32);
        assert(ex == ex1) by {
            if ex1 {
                let i = choose|i: int|
                    0 <= i < a1.len() && i < b1.len() && (forall|j: int|
                        0 <= j < i ==> (#[trigger] a1[j] as u32) == (b1[j] as u32)) && (a1[i] as u32)
                        < (b1[i] as u32);
                assert forall|j: int| 0 <= j < i + 1 implies (#[trigger] a[j] as u32) == (b[j] as u32) by {
                    if j > 0 {
                        assert(a[j] == a1[j - 1]);
                        assert(b[j] == b1[j - 1]);
                    }
                }
                assert(a[i + 1] == a1[i] && b[i + 1] == b1[i]);
            }
            if ex {
                let i = choose|i: int|
                    0 <= i < a.len() && i < b.len() && (forall|j: int|
                        0 <= j < i ==> (#[trigger] a[j] as u32) == (b[j] as u32)) && (a[i] as u32) < (
                    b[i] as u32);
                assert(i > 0);
                assert forall|j: int| 0 <= j < i - 1 implies (#[trigger] a1[j] as u32) == (b1[j] as u32) by {
                    assert(a1[j] == a[j + 1]);
                    assert(b1[j] == b[j + 1]);
                    assert((a[j + 1] as u32) == (b[j + 1] as u32));
                }
                assert(a1[i - 1] == a[i] && b1[i - 1] == b[i]);
            }
        }
    }
}

/// The characters of a text.
pub fn chars_of(s: &str) -> (v: Vec<char>)
    ensures
        v@ == s@,
{
    let mut v: Vec<char> = Vec::new();
    for c in it: s.chars()
        invariant
            v@ == it.seq().take(it.index()),
    {
        v.push(c);
    }
    v
}


/// The character is white space in Unicode's sense (the `White_Space`
/// property, which `char::is_whitespace` and `str::trim` go by).
pub open spec fn is_white_space(c: char) -> bool {
    let n = c as u32;
    (0x9 <= n && n <= 0xd) || n == 0x20 || n == 0x85 || n == 0xa0 || n == 0x1680 || (0x2000 <= n
        && n <= 0x200a) || n == 0x2028 || n == 0x2029 || n == 0x202f || n == 0x205f || n == 0x3000
}

/// The text without its leading white space.
pub open spec fn trim_start(s: Seq<char>) -> Seq<char>
    decreases s.len(),
{
    if s.len() > 0 && is_white_space(s[0]) {
        trim_start(s.drop_first())
    } else {
        s
    }
}

/// The text without its trailing white space.
pub open spec fn trim_end(s: Seq<char>) -> Seq<char>
    decreases s.len(),
{
    if s.len() > 0 && is_white_space(s.last()) {
        trim_end(s.drop_last())
    } else {
        s
    }
}

/// The text without leading and trailing white space (as `str::trim`).
pub open spec fn trimmed(s: Seq<char>) -> Seq<char> {
    trim_end(trim_start(s))
}

fn white_space(c: char) -> (r: bool)
    ensures
        r == is_white_space(c),
{
    let n = c as u32;
    (0x9 <= n && n <= 0xd) || n == 0x20 || n == 0x85 || n == 0xa0 || n == 0x1680 || (0x2000 <= n
        && n <= 0x200a) || n == 0x2028 || n == 0x2029 || n == 0x202f || n == 0x205f || n == 0x3000
}

/// The text without leading and trailing white space.
pub fn trim_text(s: &str) -> (r: &str)
    ensures
        r@ == trimmed(s@),
{
    let v = chars_of(s);
    let n = v.len();
    let mut i: usize = 0;
    assert(v@.subrange(0, n as int) =~= v@);
    while i < n && white_space(v[i])
        invariant
            n == v@.len(),
            i <= n,
            trim_start(v@) == trim_start(v@.subrange(i as int, n as int)),
        decreases n - i,
    {
        assert(v@.subrange(i as int, n as int).drop_first() =~= v@.subrange(i + 1, n as int));
        i = i + 1;
    }
    let mut j: usize = n;
    while j > i && white_space(v[j - 1])
        invariant
            n == v@.len(),
            i <= j <= n,
            trim_end(v@.subrange(i as int, n as int)) == trim_end(v@.subrange(i as int, j as int)),
            i < n ==> !is_white_space(v@[i as int]),
        decreases j - i,
    {
        assert(v@.subrange(i as int, j as int).drop_last() =~= v@.subrange(i as int, j - 1));
        j = j - 1;
    }
    s.substring_char(i, j)
}

/// Compares two texts given as their characters.
pub fn chars_le(a: &Vec<char>, b: &Vec<char>) -> (r: bool)
    ensures
        r == text_le(a@, b@),
{
    let mut i: usize = 0;
    assert(a@.skip(0) =~= a@);
    assert(b@.skip(0) =~= b@);
    while i < a.len() && i < b.len()
        invariant
            i <= a.len(),
            i <= b.len(),
            text_le(a@, b@) == text_le(a@.skip(i as int), b@.skip(i as int)),
        decreases a.len() - i,
    {
        let x = a[i] as u32;
        let y = b[i] as u32;
        if x < y {
            return true;
        }
        if x > y {
            return false;
        }
        proof {
            assert(a@.skip(i as int).drop_first() =~= a@.skip(i + 1));
            assert(b@.skip(i as int).drop_first() =~= b@.skip(i + 1));
        }
        i = i + 1;
    }
    i == a.len()
}

/// Whether `needle` occurs in `hay` starting at position `start`.
fn matches_at(hay: &Vec<char>, needle: &Vec<char>, start: usize) -> (r: bool)
    requires
        start + needle.len() <= hay.len(),
    ensures
        r == (hay@.subrange(start as int, start + needle.len()) == needle@),
{
    let mut k: usize = 0;
    while k < needle.len()
        invariant
            start + needle.len() <= hay.len(),
            k <= needle.len(),
            forall|m: int| 0 <= m < k ==> hay@[start + m] == needle@[m],
        decreases needle.len() - k,
    {
        if hay[start + k] != needle[k] {
            proof {
                let sub = hay@.subrange(start as int, start + needle.len());
                assert(sub[k as int] != needle@[k as int]);
            }
            return false;
        }
        k = k + 1;
    }
    assert(hay@.subrange(start as int, start + needle.len()) =~= needle@);
    true
}

/// Whether `needle` occurs in `hay`, both given as their characters.
pub fn chars_contain(hay: &Vec<char>, needle: &Vec<char>) -> (r: bool)
    ensures
        r == occurs_in(needle@, hay@),
{
    if needle.len() > hay.len() {
        return false;
    }
    let last = hay.len() - needle.len();
    let mut i: usize = 0;
    while i < last
        invariant
            last + needle.len() == hay.len(),
            i <= last,
            forall|j: int|
                0 <= j < i ==> #[trigger] hay@.subrange(j, j + needle.len()) != needle@,
        decreases last - i,
    {
        if matches_at(hay, needle, i) {
            return true;
        }
        i = i + 1;
    }
    matches_at(hay, needle, last)
}

/// Whether `needle` occurs in `hay` (as `str::contains` with a `&str` pattern).
pub fn text_contains(hay: &str, needle: &str) -> (r: bool)
    ensures
        r == occurs_in(needle@, hay@),
{
    let h = chars_of(hay);
    let n = chars_of(needle);
    chars_contain(&h, &n)
}

/// Whether `a` comes no later than `b` (as `str`'s `<=`).
pub fn text_le_exec(a: &str, b: &str) -> (r: bool)
    ensures
        r == text_le(a@, b@),
{
    let x = chars_of(a);
    let y = chars_of(b);
    chars_le(&x, &y)
}

} // verus!
