//! Characters, runs of characters and tokens.
//!
//! Text is modelled as a `Seq<char>`. The executable scanners walk a slice of
//! characters between two positions and are specified by [`leading`], the
//! length of the longest prefix whose elements all satisfy a predicate.

use vstd::prelude::*;

verus! {

/// The characters of `s`, in order.
pub fn chars_of(s: &str) -> (v: Vec<char>)
    ensures
        v@ == s@,
{
    let mut v: Vec<char> = Vec::new();
    for c in it: s.chars()
        invariant
            v@ == it.seq().take(it.index() as int),
            it.seq() == s@,
    {
        v.push(c);
    }
    v
}

/// Whether `c` separates tokens: the characters that Unicode lists as white
/// space.
pub open spec fn is_whitespace(c: char) -> bool {
    let u = c as u32;
    ||| 0x0009 <= u <= 0x000D
    ||| u == 0x0020
    ||| u == 0x0085
    ||| u == 0x00A0
    ||| u == 0x1680
    ||| 0x2000 <= u <= 0x200A
    ||| u == 0x2028
    ||| u == 0x2029
    ||| u == 0x202F
    ||| u == 0x205F
    ||| u == 0x3000
}

/// Tells whether `c` separates tokens.
pub fn char_is_whitespace(c: char) -> (b: bool)
    ensures
        b == is_whitespace(c),
{
    let u: u32 = c as u32;
    if u <= 0x0020 {
        (0x0009 <= u && u <= 0x000D) || u == 0x0020
    } else if u < 0x2000 {
        u == 0x0085 || u == 0x00A0 || u == 0x1680
    } else {
        u <= 0x200A || u == 0x2028 || u == 0x2029 || u == 0x202F || u == 0x205F || u == 0x3000
    }
}

/// The length of the longest prefix of `s` whose elements all satisfy `p`.
pub open spec fn leading<T>(s: Seq<T>, p: spec_fn(T) -> bool) -> nat
    decreases s.len(),
{
    if s.len() > 0 && p(s[0]) {
        1 + leading(s.drop_first(), p)
    } else {
        0
    }
}

/// The prefix that [`leading`] measures lies within `s`, holds only elements
/// that satisfy `p`, and ends at the end of `s` or before an element that does
/// not.
pub proof fn lemma_leading<T>(s: Seq<T>, p: spec_fn(T) -> bool)
    ensures
        leading(s, p) <= s.len(),
        forall|i: int| 0 <= i < leading(s, p) ==> p(#[trigger] s[i]),
        leading(s, p) < s.len() ==> !p(s[leading(s, p) as int]),
    decreases s.len(),
{
    if s.len() > 0 && p(s[0]) {
        let t = s.drop_first();
        lemma_leading(t, p);
        assert forall|i: int| 0 <= i < leading(s, p) implies p(#[trigger] s[i]) by {
            if i > 0 {
                assert(s[i] == t[i - 1]);
            }
        }
        if leading(s, p) < s.len() {
            assert(s[leading(s, p) as int] == t[leading(t, p) as int]);
        }
    }
}

/// A prefix of length `n` whose elements all satisfy `p`, and that ends at the
/// end of `s` or before an element that does not, is the one that [`leading`]
/// measures.
pub proof fn lemma_leading_is<T>(s: Seq<T>, p: spec_fn(T) -> bool, n: nat)
    requires
        n <= s.len(),
        forall|i: int| 0 <= i < n ==> p(#[trigger] s[i]),
        n < s.len() ==> !p(s[n as int]),
    ensures
        leading(s, p) == n,
    decreases n,
{
    if n > 0 {
        let t = s.drop_first();
        assert forall|i: int| 0 <= i < n - 1 implies p(#[trigger] t[i]) by {
            assert(t[i] == s[i + 1]);
        }
        lemma_leading_is(t, p, (n - 1) as nat);
    }
}

/// Where the first `n` elements of `s` all satisfy `p`, the prefix that
/// [`leading`] measures is at least that long.
pub proof fn lemma_leading_at_least<T>(s: Seq<T>, p: spec_fn(T) -> bool, n: nat)
    requires
        n <= s.len(),
        forall|i: int| 0 <= i < n ==> p(#[trigger] s[i]),
    ensures
        leading(s, p) >= n,
{
    lemma_leading(s, p);
}

/// How many white space characters `s` begins with.
pub open spec fn whitespace_run(s: Seq<char>) -> nat {
    leading(s, |c: char| is_whitespace(c))
}

/// How many characters other than white space `s` begins with.
pub open spec fn word_run(s: Seq<char>) -> nat {
    leading(s, |c: char| !is_whitespace(c))
}

/// The tokens of `s`: its maximal runs of characters other than white space,
/// from left to right.
pub open spec fn tokens(s: Seq<char>) -> Seq<Seq<char>>
    decreases s.len(),
{
    let rest = s.skip(whitespace_run(s) as int);
    let n = word_run(rest);
    if n == 0 {
        Seq::empty()
    } else {
        proof {
            lemma_leading(s, |c: char| is_whitespace(c));
            lemma_leading(rest, |c: char| !is_whitespace(c));
        }
        seq![rest.take(n as int)] + tokens(rest.skip(n as int))
    }
}

/// One step of [`tokens`] on the part of `text` between `pos` and `end`: the
/// white space from `pos` on ends at `a`, the token that follows at `b`, and
/// the remaining tokens are those of the part from `b` on. Where no token
/// follows, `a` and `b` are both `end`.
pub proof fn lemma_tokens_step(text: Seq<char>, pos: int, end: int)
    requires
        0 <= pos <= end <= text.len(),
    ensures
        ({
            let a = pos + whitespace_run(text.subrange(pos, end));
            let b = a + word_run(text.subrange(a, end));
            &&& pos <= a <= b <= end
            &&& a == b ==> a == end && tokens(text.subrange(pos, end)) == Seq::<Seq<char>>::empty()
            &&& a < b ==> tokens(text.subrange(pos, end)) == seq![text.subrange(a, b)] + tokens(
                text.subrange(b, end),
            )
        }),
{
    let s = text.subrange(pos, end);
    let a = pos + whitespace_run(s);
    lemma_leading(s, |c: char| is_whitespace(c));
    let rest = s.skip(whitespace_run(s) as int);
    assert(rest =~= text.subrange(a, end));
    let n = word_run(rest);
    let b = a + n;
    lemma_leading(rest, |c: char| !is_whitespace(c));
    if n == 0 {
        if a < end {
            assert(rest[0] == s[whitespace_run(s) as int]);
        }
    } else {
        assert(rest.take(n as int) =~= text.subrange(a, b));
        assert(rest.skip(n as int) =~= text.subrange(b, end));
    }
}

/// The first position from `pos` on, before `end`, that holds no white space;
/// `end` where there is none.
pub fn skip_whitespace(chars: &[char], pos: usize, end: usize) -> (r: usize)
    requires
        pos <= end <= chars@.len(),
    ensures
        pos <= r <= end,
        r == pos + whitespace_run(chars@.subrange(pos as int, end as int)),
{
    let mut i: usize = pos;
    while i < end && char_is_whitespace(chars[i])
        invariant
            pos <= i <= end <= chars@.len(),
            forall|j: int| pos <= j < i ==> is_whitespace(#[trigger] chars@[j]),
        decreases end - i,
    {
        i += 1;
    }
    proof {
        lemma_leading_is(
            chars@.subrange(pos as int, end as int),
            |c: char| is_whitespace(c),
            (i - pos) as nat,
        );
    }
    i
}

/// The first position from `pos` on, before `end`, that holds white space;
/// `end` where there is none.
pub fn skip_word(chars: &[char], pos: usize, end: usize) -> (r: usize)
    requires
        pos <= end <= chars@.len(),
    ensures
        pos <= r <= end,
        r == pos + word_run(chars@.subrange(pos as int, end as int)),
{
    let mut i: usize = pos;
    while i < end && !char_is_whitespace(chars[i])
        invariant
            pos <= i <= end <= chars@.len(),
            forall|j: int| pos <= j < i ==> !is_whitespace(#[trigger] chars@[j]),
        decreases end - i,
    {
        i += 1;
    }
    proof {
        lemma_leading_is(
            chars@.subrange(pos as int, end as int),
            |c: char| !is_whitespace(c),
            (i - pos) as nat,
        );
    }
    i
}

} // verus!
