//! Cleaning up the text of a message before it is stored.

use vstd::prelude::*;

verus! {

pub assume_specification[ String::push ](s: &mut String, c: char)
    ensures
        final(s)@ == old(s)@.push(c),
;

/// White space in the sense of Unicode's `White_Space` property.
pub open spec fn is_whitespace(c: char) -> bool {
    let n = c as u32;
    (0x09 <= n <= 0x0d) || n == 0x20 || n == 0x85 || n == 0xa0 || n == 0x1680 || (0x2000 <= n
        <= 0x200a) || n == 0x2028 || n == 0x2029 || n == 0x202f || n == 0x205f || n == 0x3000
}

/// An ASCII control character other than TAB. These are taken out of a
/// message; TAB, SPACE and everything else stays.
pub open spec fn is_stripped(c: char) -> bool {
    let n = c as u32;
    (n < 0x20 || n == 0x7f) && n != 0x09
}

/// `s` without the white space at its start and at its end.
pub open spec fn trimmed(s: Seq<char>) -> Seq<char>
    decreases s.len(),
{
    if s.len() == 0 {
        s
    } else if is_whitespace(s[0]) {
        trimmed(s.drop_first())
    } else if is_whitespace(s.last()) {
        trimmed(s.drop_last())
    } else {
        s
    }
}

/// `s` without the characters that `is_stripped` names.
pub open spec fn sanitized(s: Seq<char>) -> Seq<char> {
    s.filter(|c: char| !is_stripped(c))
}

/// What is stored of a message whose text came in as `raw`: the text
/// trimmed, then sanitized.
pub open spec fn cleaned(raw: Seq<char>) -> Seq<char> {
    sanitized(trimmed(raw))
}

/// White space at the start does not count.
pub proof fn lemma_trimmed_skips_start(s: Seq<char>, a: int)
    requires
        0 <= a <= s.len(),
        forall|i: int| 0 <= i < a ==> is_whitespace(#[trigger] s[i]),
    ensures
        trimmed(s) == trimmed(s.subrange(a, s.len() as int)),
    decreases a,
{
    if a == 0 {
        assert(s.subrange(0, s.len() as int) =~= s);
    } else {
        let rest = s.drop_first();
        assert forall|i: int| 0 <= i < a - 1 implies is_whitespace(#[trigger] rest[i]) by {
            assert(rest[i] == s[i + 1]);
        }
        lemma_trimmed_skips_start(rest, a - 1);
        assert(rest.subrange(a - 1, rest.len() as int) =~= s.subrange(a, s.len() as int));
    }
}

/// White space at the end does not count, once the start is clean.
pub proof fn lemma_trimmed_skips_end(s: Seq<char>, b: int)
    requires
        0 < b <= s.len(),
        !is_whitespace(s[0]),
        forall|i: int| b <= i < s.len() ==> is_whitespace(#[trigger] s[i]),
    ensures
        trimmed(s) == trimmed(s.subrange(0, b)),
    decreases s.len() - b,
{
    if b == s.len() {
        assert(s.subrange(0, b) =~= s);
    } else {
        let rest = s.drop_last();
        lemma_trimmed_skips_end(rest, b);
        assert(rest.subrange(0, b) =~= s.subrange(0, b));
    }
}

fn is_whitespace_char(c: char) -> (b: bool)
    ensures
        b == is_whitespace(c),
{
    let n = c as u32;
    (0x09 <= n && n <= 0x0d) || n == 0x20 || n == 0x85 || n == 0xa0 || n == 0x1680 || (0x2000
        <= n && n <= 0x200a) || n == 0x2028 || n == 0x2029 || n == 0x202f || n == 0x205f || n
        == 0x3000
}

fn is_stripped_char(c: char) -> (b: bool)
    ensures
        b == is_stripped(c),
{
    let n = c as u32;
    (n < 0x20 || n == 0x7f) && n != 0x09
}

/// The characters of `input`, one by one.
pub fn chars_of(input: &str) -> (chars: Vec<char>)
    ensures
        chars@ == input@,
{
    let mut chars: Vec<char> = Vec::new();
    for c in it: input.chars()
        invariant
            it.seq() == input@,
            chars@ == input@.take(it.index() as int),
    {
        proof {
            let k = it.index() as int;
            assert(input@.take(k + 1) =~= input@.take(k).push(input@[k]));
        }
        chars.push(c);
    }
    proof {
        assert(input@.take(input@.len() as int) =~= input@);
    }
    chars
}

/// The text made of the characters of `chars` from place `from` up to, but
/// not with, place `to`.
pub fn text_of(chars: &Vec<char>, from: usize, to: usize) -> (out: String)
    requires
        from <= to <= chars@.len(),
    ensures
        out@ == chars@.subrange(from as int, to as int),
{
    let mut out = String::new();
    let mut k: usize = from;
    while k < to
        invariant
            from <= k <= to <= chars@.len(),
            out@ == chars@.subrange(from as int, k as int),
        decreases to - k,
    {
        proof {
            assert(chars@.subrange(from as int, k + 1) =~= chars@.subrange(
                from as int,
                k as int,
            ).push(chars@[k as int]));
        }
        out.push(chars[k]);
        k = k + 1;
    }
    out
}

/// `input` without the white space at its start and at its end.
pub fn trim(input: &str) -> (out: String)
    ensures
        out@ == trimmed(input@),
{
    let chars = chars_of(input);
    let n = chars.len();
    let mut a: usize = 0;
    while a < n && is_whitespace_char(chars[a])
        invariant
            n == chars@.len(),
            a <= n,
            forall|i: int| 0 <= i < a ==> is_whitespace(#[trigger] chars@[i]),
        decreases n - a,
    {
        a = a + 1;
    }
    let mut b: usize = n;
    while b > a && is_whitespace_char(chars[b - 1])
        invariant
            n == chars@.len(),
            a <= b <= n,
            forall|i: int| b <= i < n ==> is_whitespace(#[trigger] chars@[i]),
        decreases b,
    {
        b = b - 1;
    }
    let out = text_of(&chars, a, b);
    proof {
        let s = chars@;
        let tail = s.subrange(a as int, n as int);
        lemma_trimmed_skips_start(s, a as int);
        if a < b {
            assert(tail[0] == s[a as int]);
            assert forall|i: int| b - a <= i < tail.len() implies is_whitespace(
                #[trigger] tail[i],
            ) by {
                assert(tail[i] == s[i + a]);
            }
            lemma_trimmed_skips_end(tail, b - a);
            assert(tail.subrange(0, b - a) =~= s.subrange(a as int, b as int));
            let core = s.subrange(a as int, b as int);
            assert(core[0] == s[a as int]);
            assert(core.last() == s[b - 1]);
        } else {
            assert(a == n) by {
                if a < n {
                    assert(is_whitespace(s[a as int]));
                }
            }
            assert(tail =~= Seq::<char>::empty());
            assert(s.subrange(a as int, b as int) =~= Seq::<char>::empty());
        }
    }
    out
}

/// `input` without ASCII control characters, TAB excepted.
pub fn sanitize_text(input: &str) -> (out: String)
    ensures
        out@ == sanitized(input@),
{
    let ghost keep = |c: char| !is_stripped(c);
    let mut out = String::new();
    proof {
        assert(input@.take(0) =~= Seq::<char>::empty());
    }
    for c in it: input.chars()
        invariant
            keep == |c: char| !is_stripped(c),
            it.seq() == input@,
            out@ == input@.take(it.index() as int).filter(keep),
    {
        proof {
            let k = it.index() as int;
            reveal(Seq::filter);
            assert(input@.take(k + 1).drop_last() =~= input@.take(k));
        }
        if !is_stripped_char(c) {
            out.push(c);
        }
    }
    proof {
        assert(input@.take(input@.len() as int) =~= input@);
    }
    out
}

/// The text of a message as it is stored: `raw` trimmed, then sanitized.
pub fn clean(raw: &str) -> (out: String)
    ensures
        out@ == cleaned(raw@),
{
    let trimmed = trim(raw);
    sanitize_text(trimmed.as_str())
}

} // verus!
