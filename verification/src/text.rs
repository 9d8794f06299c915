//! Characters of a text field and the trimming of surrounding whitespace.

use vstd::prelude::*;
use vstd::slice::slice_subrange;

verus! {

/// Whether `c` is whitespace: the code points with the Unicode property
/// `White_Space`.
pub open spec fn is_space(c: char) -> bool {
    let n = c as u32;
    (0x09 <= n <= 0x0D) || n == 0x20 || n == 0x85 || n == 0xA0 || n == 0x1680 || (0x2000 <= n
        <= 0x200A) || n == 0x2028 || n == 0x2029 || n == 0x202F || n == 0x205F || n == 0x3000
}

/// How many whitespace characters `s` starts with.
pub open spec fn leading_spaces(s: Seq<char>) -> nat
    decreases s.len(),
{
    if s.len() > 0 && is_space(s[0]) {
        1 + leading_spaces(s.drop_first())
    } else {
        0
    }
}

/// How many whitespace characters `s` ends with.
pub open spec fn trailing_spaces(s: Seq<char>) -> nat
    decreases s.len(),
{
    if s.len() > 0 && is_space(s.last()) {
        1 + trailing_spaces(s.drop_last())
    } else {
        0
    }
}

/// `s` without the whitespace at its two ends. A text of whitespace alone
/// trims to the empty text.
pub open spec fn trimmed(s: Seq<char>) -> Seq<char> {
    let from = leading_spaces(s) as int;
    let to = s.len() - trailing_spaces(s);
    if from <= to {
        s.subrange(from, to)
    } else {
        Seq::empty()
    }
}

/// A position `n` up to which everything is whitespace, and which is the end
/// of `s` or holds another character, is the count of leading whitespace.
pub proof fn lemma_leading_spaces(s: Seq<char>, n: int)
    requires
        0 <= n <= s.len(),
        forall|i: int| 0 <= i < n ==> is_space(#[trigger] s[i]),
        n < s.len() ==> !is_space(s[n]),
    ensures
        leading_spaces(s) == n,
    decreases s.len(),
{
    if n > 0 {
        let rest = s.drop_first();
        assert(is_space(s[0]));
        assert forall|i: int| 0 <= i < n - 1 implies is_space(#[trigger] rest[i]) by {
            assert(rest[i] == s[i + 1]);
        }
        lemma_leading_spaces(rest, n - 1);
    }
}

/// The mirror image of [`lemma_leading_spaces`]: from position `n` on
/// everything is whitespace, and `n` is the start of `s` or follows another
/// character.
pub proof fn lemma_trailing_spaces(s: Seq<char>, n: int)
    requires
        0 <= n <= s.len(),
        forall|i: int| n <= i < s.len() ==> is_space(#[trigger] s[i]),
        n > 0 ==> !is_space(s[n - 1]),
    ensures
        trailing_spaces(s) == s.len() - n,
    decreases s.len(),
{
    if n < s.len() {
        let rest = s.drop_last();
        assert(is_space(s[s.len() - 1]));
        assert forall|i: int| n <= i < rest.len() implies is_space(#[trigger] rest[i]) by {
            assert(rest[i] == s[i]);
        }
        lemma_trailing_spaces(rest, n);
    }
}

/// Trimming leaves nothing to trim: the result neither starts nor ends with
/// whitespace.
pub proof fn lemma_trimmed_is_tight(s: Seq<char>)
    ensures
        trimmed(s).len() > 0 ==> !is_space(trimmed(s).first()) && !is_space(trimmed(s).last()),
        trimmed(trimmed(s)) == trimmed(s),
{
    lemma_spaces_bounded(s);
    let from = leading_spaces(s) as int;
    let to = s.len() - trailing_spaces(s);
    let t = trimmed(s);
    if t.len() > 0 {
        assert(t.first() == s[from]);
        assert(t.last() == s[to - 1]);
        lemma_leading_spaces(t, 0);
        lemma_trailing_spaces(t, t.len() as int);
        assert(t.subrange(0, t.len() as int) == t);
    } else {
        assert(t.subrange(0, 0) == t);
    }
}

/// The two counts stay within `s`, the counted characters are whitespace,
/// and the characters next to them, if any, are not.
pub proof fn lemma_spaces_bounded(s: Seq<char>)
    ensures
        leading_spaces(s) <= s.len(),
        trailing_spaces(s) <= s.len(),
        forall|i: int| 0 <= i < leading_spaces(s) ==> is_space(#[trigger] s[i]),
        forall|i: int| s.len() - trailing_spaces(s) <= i < s.len() ==> is_space(#[trigger] s[i]),
        leading_spaces(s) < s.len() ==> !is_space(s[leading_spaces(s) as int]),
        trailing_spaces(s) < s.len() ==> !is_space(s[s.len() - trailing_spaces(s) - 1]),
        leading_spaces(s) == s.len() <==> trailing_spaces(s) == s.len(),
    decreases s.len(),
{
    if s.len() > 0 {
        let head = s.drop_first();
        let tail = s.drop_last();
        lemma_spaces_bounded(head);
        lemma_spaces_bounded(tail);
        if is_space(s[0]) {
            assert forall|i: int| 0 <= i < leading_spaces(s) implies is_space(#[trigger] s[i]) by {
                if i > 0 {
                    assert(s[i] == head[i - 1]);
                }
            }
            if leading_spaces(s) < s.len() {
                assert(s[leading_spaces(s) as int] == head[leading_spaces(head) as int]);
            }
        }
        if is_space(s.last()) {
            assert forall|i: int| s.len() - trailing_spaces(s) <= i < s.len() implies is_space(
                #[trigger] s[i],
            ) by {
                if i < s.len() - 1 {
                    assert(s[i] == tail[i]);
                }
            }
            if trailing_spaces(s) < s.len() {
                assert(s[s.len() - trailing_spaces(s) - 1] == tail[tail.len() - trailing_spaces(
                    tail,
                ) - 1]);
            }
        }
        if leading_spaces(s) == s.len() {
            lemma_trailing_spaces(s, 0);
        }
        if trailing_spaces(s) == s.len() {
            lemma_leading_spaces(s, s.len() as int);
        }
    }
}

/// Whether `c` is whitespace.
pub fn is_whitespace(c: char) -> (r: bool)
    ensures
        r == is_space(c),
{
    let n: u32 = c as u32;
    (0x09 <= n && n <= 0x0D) || n == 0x20 || n == 0x85 || n == 0xA0 || n == 0x1680 || (0x2000 <= n
        && n <= 0x200A) || n == 0x2028 || n == 0x2029 || n == 0x202F || n == 0x205F || n == 0x3000
}

/// The characters of `s`, in order.
pub fn chars_of(s: &str) -> (v: Vec<char>)
    ensures
        v@ == s@,
{
    let mut v: Vec<char> = Vec::new();
    for c in it: s.chars()
        invariant
            v@ == it.seq().take(it.index() as int),
            it.seq() == s@,
    {
        v.push(c);
    }
    v
}

/// The part of `s` between its leading and its trailing whitespace.
pub fn trim(s: &[char]) -> (r: &[char])
    ensures
        r@ == trimmed(s@),
{
    let len = s.len();
    let mut from: usize = 0;
    while from < len && is_whitespace(s[from])
        invariant
            from <= len == s@.len(),
            forall|i: int| 0 <= i < from ==> is_space(#[trigger] s@[i]),
        decreases len - from,
    {
        from += 1;
    }
    proof {
        lemma_leading_spaces(s@, from as int);
        lemma_spaces_bounded(s@);
    }
    let mut to: usize = len;
    while to > from && is_whitespace(s[to - 1])
        invariant
            from <= to <= len == s@.len(),
            forall|i: int| to <= i < len ==> is_space(#[trigger] s@[i]),
        decreases to,
    {
        to -= 1;
    }
    proof {
        if to > from {
            lemma_trailing_spaces(s@, to as int);
        } else {
            assert(s@.subrange(from as int, to as int) == Seq::<char>::empty());
        }
    }
    slice_subrange(s, from, to)
}

} // verus!
