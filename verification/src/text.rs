//! Characters of a text: white space, the tokens it separates, and how many
//! bytes a character takes in UTF-8.

use vstd::prelude::*;
use vstd::utf8::{encode_scalar, char_is_scalar};

verus! {

/// The characters that Unicode marks as `White_Space`.
pub open spec fn is_whitespace(c: char) -> bool {
    let u = c as u32;
    ||| 0x09 <= u <= 0x0d
    ||| u == 0x20
    ||| u == 0x85
    ||| u == 0xa0
    ||| u == 0x1680
    ||| 0x2000 <= u <= 0x200a
    ||| u == 0x2028
    ||| u == 0x2029
    ||| u == 0x202f
    ||| u == 0x205f
    ||| u == 0x3000
}

/// The number of bytes of the character's UTF-8 encoding, 1 to 4.
pub open spec fn utf8_width(c: char) -> nat {
    encode_scalar(c as u32).len()
}

/// The number of leading characters of `s` before its first white space.
pub open spec fn word_len(s: Seq<char>) -> int
    decreases s.len(),
{
    if s.len() == 0 || is_whitespace(s[0]) {
        0
    } else {
        1 + word_len(s.skip(1))
    }
}

/// The tokens of a text: its longest runs of characters that are not white
/// space, in order. White space at either end gives no empty token.
pub open spec fn tokens(s: Seq<char>) -> Seq<Seq<char>>
    decreases s.len(),
    via tokens_decreases
{
    if s.len() == 0 {
        Seq::empty()
    } else if is_whitespace(s[0]) {
        tokens(s.skip(1))
    } else {
        seq![s.take(word_len(s))] + tokens(s.skip(word_len(s)))
    }
}

#[via_fn]
proof fn tokens_decreases(s: Seq<char>) {
    lemma_word_len(s);
}

/// A word is no longer than its text, holds no white space, ends at white
/// space or at the end, and is not empty where the text starts with a
/// character that is not white space.
pub proof fn lemma_word_len(s: Seq<char>)
    ensures
        0 <= word_len(s) <= s.len(),
        forall|k: int| 0 <= k < word_len(s) ==> !is_whitespace(#[trigger] s[k]),
        word_len(s) < s.len() ==> is_whitespace(s[word_len(s)]),
        s.len() > 0 && !is_whitespace(s[0]) ==> word_len(s) > 0,
    decreases s.len(),
{
    if s.len() == 0 || is_whitespace(s[0]) {
    } else {
        let rest = s.skip(1);
        lemma_word_len(rest);
        assert forall|k: int| 0 <= k < word_len(s) implies !is_whitespace(#[trigger] s[k]) by {
            if k > 0 {
                assert(s[k] == rest[k - 1]);
            }
        }
        if word_len(s) < s.len() {
            assert(s[word_len(s)] == rest[word_len(rest)]);
        }
    }
}

/// A run of `n` characters without white space, which ends at white space or
/// at the end of the text, is the text's first word.
pub proof fn lemma_word_found(s: Seq<char>, n: int)
    requires
        0 <= n <= s.len(),
        forall|k: int| 0 <= k < n ==> !is_whitespace(#[trigger] s[k]),
        n < s.len() ==> is_whitespace(s[n]),
    ensures
        word_len(s) == n,
    decreases n,
{
    if n > 0 {
        let rest = s.skip(1);
        assert forall|k: int| 0 <= k < n - 1 implies !is_whitespace(#[trigger] rest[k]) by {
            assert(rest[k] == s[k + 1]);
        }
        lemma_word_found(rest, n - 1);
    }
}

/// White space before the first token changes nothing.
pub proof fn lemma_tokens_skip_whitespace(s: Seq<char>, n: int)
    requires
        0 <= n <= s.len(),
        forall|k: int| 0 <= k < n ==> is_whitespace(#[trigger] s[k]),
    ensures
        tokens(s) == tokens(s.skip(n)),
    decreases n,
{
    if n == 0 {
        assert(s.skip(0) =~= s);
    } else {
        let rest = s.skip(1);
        assert(is_whitespace(s[0]));
        assert forall|k: int| 0 <= k < n - 1 implies is_whitespace(#[trigger] rest[k]) by {
            assert(rest[k] == s[k + 1]);
        }
        lemma_tokens_skip_whitespace(rest, n - 1);
        assert(rest.skip(n - 1) =~= s.skip(n));
    }
}

/// A text that holds no white space.
pub open spec fn is_word(s: Seq<char>) -> bool {
    forall|i: int| 0 <= i < s.len() ==> !is_whitespace(#[trigger] s[i])
}

/// Every token holds at least one character and no white space.
pub proof fn lemma_tokens_are_words(s: Seq<char>)
    ensures
        forall|k: int|
            0 <= k < tokens(s).len() ==> (#[trigger] tokens(s)[k]).len() > 0 && is_word(
                tokens(s)[k],
            ),
    decreases s.len(),
{
    if s.len() == 0 {
        assert(tokens(s).len() == 0);
    } else if is_whitespace(s[0]) {
        lemma_tokens_are_words(s.skip(1));
        assert(tokens(s) == tokens(s.skip(1)));
    } else {
        lemma_word_len(s);
        let n = word_len(s);
        assert(tokens(s) == seq![s.take(n)] + tokens(s.skip(n)));
        let first = s.take(n);
        let rest = tokens(s.skip(n));
        lemma_tokens_are_words(s.skip(n));
        assert(is_word(first)) by {
            assert forall|i: int| 0 <= i < first.len() implies !is_whitespace(
                #[trigger] first[i],
            ) by {
                assert(first[i] == s[i]);
            }
        }
        assert forall|k: int| 0 <= k < tokens(s).len() implies (#[trigger] tokens(s)[k]).len() > 0
            && is_word(tokens(s)[k]) by {
            if k > 0 {
                assert(tokens(s)[k] == rest[k - 1]);
            }
        }
    }
}

/// A text without white space is its own single token, if it is not empty.
pub proof fn lemma_word_is_one_token(s: Seq<char>)
    requires
        s.len() > 0,
        is_word(s),
    ensures
        tokens(s) == seq![s],
{
    lemma_word_found(s, s.len() as int);
    assert(s.take(s.len() as int) =~= s);
    assert(tokens(s.skip(s.len() as int)) =~= Seq::<Seq<char>>::empty());
    assert(tokens(s) =~= seq![s]);
}

/// Says whether the character is white space.
pub fn is_space(c: char) -> (r: bool)
    ensures
        r == is_whitespace(c),
{
    let u: u32 = c as u32;
    (0x09 <= u && u <= 0x0d) || u == 0x20 || u == 0x85 || u == 0xa0 || u == 0x1680 || (0x2000 <= u
        && u <= 0x200a) || u == 0x2028 || u == 0x2029 || u == 0x202f || u == 0x205f || u == 0x3000
}

/// The number of bytes that the character takes in UTF-8.
pub fn width_of(c: char) -> (w: usize)
    ensures
        w == utf8_width(c),
        1 <= w <= 4,
{
    proof {
        char_is_scalar(c);
    }
    let u: u32 = c as u32;
    if u < 0x80 {
        1
    } else if u < 0x800 {
        2
    } else if u < 0x10000 {
        3
    } else {
        4
    }
}

/// The characters of a text, in order.
pub fn chars_of(text: &str) -> (out: Vec<char>)
    ensures
        out@ == text@,
{
    let mut out: Vec<char> = Vec::new();
    for c in it: text.chars()
        invariant
            out@ == it.seq().take(it.index()),
            it.seq() == text@,
    {
        out.push(c);
    }
    out
}

/// Finds the first token at or after `from`: the positions of its first
/// character and of the end behind its last. Where no token is left, both
/// are the length of the text.
pub fn next_token(chars: &Vec<char>, from: usize) -> (span: (usize, usize))
    requires
        from <= chars.len(),
    ensures
        from <= span.0 <= span.1 <= chars.len(),
        span.0 == chars.len() ==> tokens(chars@.skip(from as int)).len() == 0,
        span.0 < chars.len() ==> span.0 < span.1 && tokens(chars@.skip(from as int)) == seq![
            chars@.subrange(span.0 as int, span.1 as int),
        ] + tokens(chars@.skip(span.1 as int)),
{
    let n: usize = chars.len();
    let mut start: usize = from;
    while start < n && is_space(chars[start])
        invariant
            from <= start <= n,
            n == chars.len(),
            forall|k: int| from <= k < start ==> is_whitespace(#[trigger] chars@[k]),
        decreases n - start,
    {
        start += 1;
    }
    let ghost tail = chars@.skip(from as int);
    let ghost word = chars@.skip(start as int);
    proof {
        assert forall|k: int| 0 <= k < start - from implies is_whitespace(#[trigger] tail[k]) by {
            assert(tail[k] == chars@[from + k]);
        }
        lemma_tokens_skip_whitespace(tail, start - from);
        assert(tail.skip(start - from) =~= word);
    }
    if start == n {
        return (n, n);
    }
    let mut end: usize = start + 1;
    while end < n && !is_space(chars[end])
        invariant
            start < end <= n,
            n == chars.len(),
            forall|k: int| start <= k < end ==> !is_whitespace(#[trigger] chars@[k]),
        decreases n - end,
    {
        end += 1;
    }
    proof {
        assert forall|k: int| 0 <= k < end - start implies !is_whitespace(#[trigger] word[k]) by {
            assert(word[k] == chars@[start + k]);
        }
        if end < n {
            assert(word[end - start] == chars@[end as int]);
        }
        lemma_word_found(word, end - start);
        assert(word.take(end - start) =~= chars@.subrange(start as int, end as int));
        assert(word.skip(end - start) =~= chars@.skip(end as int));
    }
    (start, end)
}

} // verus!
