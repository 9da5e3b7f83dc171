//! The texts that stand for a decimal floating-point number.
//!
//! The grammar, where letters count in either case:
//!
//! ```text
//! Literal  ::= Sign? ( 'inf' | 'infinity' | 'nan' | Number )
//! Number   ::= Mantissa ( 'e' Sign? Digit+ )?
//! Mantissa ::= Digit+ | Digit+ '.' Digit* | Digit* '.' Digit+
//! Sign     ::= '+' | '-'
//! ```

use vstd::prelude::*;
use vstd::utf8::char_is_scalar;
use crate::text::chars_of;

verus! {

/// A decimal digit.
pub open spec fn is_digit(c: char) -> bool {
    '0' <= c <= '9'
}

/// A plus or a minus.
pub open spec fn is_sign(c: char) -> bool {
    c == '+' || c == '-'
}

/// The letter that starts an exponent.
pub open spec fn is_exponent_mark(c: char) -> bool {
    c == 'e' || c == 'E'
}

/// `c` is the lower-case letter `letter`, or its capital.
pub open spec fn same_letter(c: char, letter: char) -> bool {
    c == letter || c as u32 + 32 == letter as u32
}

/// Every character is a digit.
pub open spec fn all_digits(s: Seq<char>) -> bool {
    forall|i: int| 0 <= i < s.len() ==> is_digit(#[trigger] s[i])
}

/// Digits with at most one point among them, and at least one digit.
pub open spec fn is_mantissa(s: Seq<char>) -> bool {
    &&& forall|i: int| 0 <= i < s.len() ==> is_digit(#[trigger] s[i]) || s[i] == '.'
    &&& forall|i: int, j: int| 0 <= i < j < s.len() ==> !(#[trigger] s[i] == '.' && #[trigger] s[j] == '.')
    &&& exists|i: int| 0 <= i < s.len() && is_digit(#[trigger] s[i])
}

/// What follows the exponent mark: at least one digit, a sign before them or none.
pub open spec fn is_exponent(s: Seq<char>) -> bool {
    if s.len() > 0 && is_sign(s[0]) {
        s.len() > 1 && all_digits(s.skip(1))
    } else {
        s.len() > 0 && all_digits(s)
    }
}

/// A mantissa, alone or with an exponent behind it.
pub open spec fn is_number(s: Seq<char>) -> bool {
    ||| is_mantissa(s)
    ||| exists|k: int|
        0 <= k < s.len() && is_exponent_mark(#[trigger] s[k]) && is_mantissa(s.take(k))
            && is_exponent(s.skip(k + 1))
}

/// `s` is `word`, which is in lower case, in whatever case.
pub open spec fn spells(s: Seq<char>, word: Seq<char>) -> bool {
    &&& s.len() == word.len()
    &&& forall|i: int| 0 <= i < s.len() ==> same_letter(#[trigger] s[i], word[i])
}

/// One of the names of the values that are no finite number.
pub open spec fn is_special(s: Seq<char>) -> bool {
    ||| spells(s, seq!['i', 'n', 'f'])
    ||| spells(s, seq!['n', 'a', 'n'])
    ||| spells(s, seq!['i', 'n', 'f', 'i', 'n', 'i', 't', 'y'])
}

/// The text without its sign, if it starts with one.
pub open spec fn unsigned_part(s: Seq<char>) -> Seq<char> {
    if s.len() > 0 && is_sign(s[0]) {
        s.skip(1)
    } else {
        s
    }
}

/// The text is a literal of the grammar above.
pub open spec fn is_float_literal(s: Seq<char>) -> bool {
    is_number(unsigned_part(s)) || is_special(unsigned_part(s))
}

/// Where a scan of `t` finds digits up to `a`, then either no point (`b == a`)
/// or a point and digits up to `b`, and no digit at `b`.
pub open spec fn scanned(t: Seq<char>, a: int, b: int) -> bool {
    &&& 0 <= a <= b <= t.len()
    &&& forall|i: int| 0 <= i < a ==> is_digit(#[trigger] t[i])
    &&& b < t.len() ==> !is_digit(t[b])
    &&& if b == a {
        a < t.len() ==> t[a] != '.'
    } else {
        &&& t[a] == '.'
        &&& forall|i: int| a < i < b ==> is_digit(#[trigger] t[i])
    }
}

/// After such a scan, a prefix of `t` that is a mantissa ends at `b` or
/// before it, and the prefix that ends at `b` is one where the scan met a digit.
pub proof fn lemma_mantissa_prefix(t: Seq<char>, a: int, b: int, k: int)
    requires
        scanned(t, a, b),
        0 <= k <= t.len(),
    ensures
        is_mantissa(t.take(k)) ==> k <= b,
        k == b ==> (is_mantissa(t.take(k)) <==> (a > 0 || b > a + 1)),
{
    let p = t.take(k);
    if k > b {
        // position b holds no digit, and a second point at best
        assert(p[b] == t[b]);
        if b > a {
            assert(p[a] == t[a]);
        }
        assert(!is_mantissa(p));
    }
    if k == b {
        if a > 0 || b > a + 1 {
            let d = if a > 0 { 0 } else { a + 1 };
            assert(is_digit(p[d]));
            assert forall|i: int| 0 <= i < p.len() implies is_digit(#[trigger] p[i]) || p[i] == '.' by {
                assert(p[i] == t[i]);
            }
            assert forall|i: int, j: int| 0 <= i < j < p.len() implies !(#[trigger] p[i] == '.'
                && #[trigger] p[j] == '.') by {
                assert(p[i] == t[i] && p[j] == t[j]);
            }
            assert(is_mantissa(p));
        } else {
            assert forall|i: int| 0 <= i < p.len() implies !is_digit(#[trigger] p[i]) by {
                assert(p[i] == t[i]);
            }
            assert(!is_mantissa(p));
        }
    }
}

/// After such a scan, `t` is a number exactly if the scan met a digit and
/// either reached the end or stopped at an exponent mark with an exponent
/// behind it.
pub proof fn lemma_number_scanned(t: Seq<char>, a: int, b: int)
    requires
        scanned(t, a, b),
    ensures
        is_number(t) <==> (a > 0 || b > a + 1) && (b == t.len() || (is_exponent_mark(t[b])
            && is_exponent(t.skip(b + 1)))),
{
    let met_digit = a > 0 || b > a + 1;
    lemma_mantissa_prefix(t, a, b, t.len() as int);
    lemma_mantissa_prefix(t, a, b, b);
    assert(t.take(t.len() as int) =~= t);
    if is_number(t) && !is_mantissa(t) {
        let k = choose|k: int|
            0 <= k < t.len() && is_exponent_mark(#[trigger] t[k]) && is_mantissa(t.take(k))
                && is_exponent(t.skip(k + 1));
        lemma_mantissa_prefix(t, a, b, k);
        if k < b {
            // a digit or the point stands there, no exponent mark
            assert(is_digit(t[k]) || t[k] == '.');
        }
        assert(k == b);
    }
    if met_digit && b < t.len() && is_exponent_mark(t[b]) && is_exponent(t.skip(b + 1)) {
        assert(is_mantissa(t.take(b)));
    }
}

/// A character of a literal is a digit, a sign, the point or a letter.
pub open spec fn is_literal_char(c: char) -> bool {
    ||| is_digit(c)
    ||| is_sign(c)
    ||| c == '.'
    ||| 'a' <= c <= 'z'
    ||| 'A' <= c <= 'Z'
}

/// A lower-case letter in either case is a letter.
proof fn lemma_letter(c: char, letter: char)
    requires
        same_letter(c, letter),
        'a' <= letter <= 'z',
    ensures
        is_literal_char(c),
{
}

/// A word that is spelled in lower-case letters is spelled in letters.
proof fn lemma_spelled_in_letters(s: Seq<char>, word: Seq<char>)
    requires
        spells(s, word),
        forall|i: int| 0 <= i < word.len() ==> 'a' <= #[trigger] word[i] <= 'z',
    ensures
        forall|i: int| 0 <= i < s.len() ==> is_literal_char(#[trigger] s[i]),
{
    assert forall|i: int| 0 <= i < s.len() implies is_literal_char(#[trigger] s[i]) by {
        lemma_letter(s[i], word[i]);
    }
}

/// A literal is made of digits, signs, points and letters: it holds no white
/// space, comma, quote or bracket.
pub proof fn lemma_literal_chars(s: Seq<char>)
    requires
        is_float_literal(s),
    ensures
        forall|i: int| 0 <= i < s.len() ==> is_literal_char(#[trigger] s[i]),
{
    let t = unsigned_part(s);
    assert forall|j: int| 0 <= j < t.len() implies is_literal_char(#[trigger] t[j]) by {
        if is_special(t) {
            let inf = seq!['i', 'n', 'f'];
            let nan = seq!['n', 'a', 'n'];
            let infinity = seq!['i', 'n', 'f', 'i', 'n', 'i', 't', 'y'];
            if spells(t, inf) {
                lemma_spelled_in_letters(t, inf);
            } else if spells(t, nan) {
                lemma_spelled_in_letters(t, nan);
            } else {
                lemma_spelled_in_letters(t, infinity);
            }
        } else if is_mantissa(t) {
        } else {
            let k = choose|k: int|
                0 <= k < t.len() && is_exponent_mark(#[trigger] t[k]) && is_mantissa(t.take(k))
                    && is_exponent(t.skip(k + 1));
            let x = t.skip(k + 1);
            if j < k {
                assert(t.take(k)[j] == t[j]);
            } else if j > k {
                assert(x[j - k - 1] == t[j]);
                if is_sign(x[0]) && j > k + 1 {
                    assert(x.skip(1)[j - k - 2] == t[j]);
                }
            }
        }
    }
    assert forall|i: int| 0 <= i < s.len() implies is_literal_char(#[trigger] s[i]) by {
        if s.len() > 0 && is_sign(s[0]) {
            if i > 0 {
                assert(t[i - 1] == s[i]);
            }
        }
    }
}

/// Says whether the character is a decimal digit.
pub fn is_digit_char(c: char) -> (r: bool)
    ensures
        r == is_digit(c),
{
    '0' <= c && c <= '9'
}

/// Says whether the character is a plus or a minus.
pub fn is_sign_char(c: char) -> (r: bool)
    ensures
        r == is_sign(c),
{
    c == '+' || c == '-'
}

/// The end of the digits that start at `from`, at `to` at the latest.
fn scan_digits(chars: &Vec<char>, from: usize, to: usize) -> (end: usize)
    requires
        from <= to <= chars.len(),
    ensures
        from <= end <= to,
        forall|i: int| from <= i < end ==> is_digit(#[trigger] chars@[i]),
        end < to ==> !is_digit(chars@[end as int]),
{
    let mut end: usize = from;
    while end < to && is_digit_char(chars[end])
        invariant
            from <= end <= to <= chars.len(),
            forall|i: int| from <= i < end ==> is_digit(#[trigger] chars@[i]),
        decreases to - end,
    {
        end += 1;
    }
    end
}

/// Says whether the characters from `from` up to `to` spell `word`, which is
/// in lower case, in whatever case.
fn spells_word(chars: &Vec<char>, from: usize, to: usize, word: &Vec<char>) -> (r: bool)
    requires
        from <= to <= chars.len(),
    ensures
        r == spells(chars@.subrange(from as int, to as int), word@),
{
    if to - from != word.len() {
        return false;
    }
    let ghost s = chars@.subrange(from as int, to as int);
    let mut i: usize = 0;
    while i < word.len()
        invariant
            from <= to <= chars.len(),
            to - from == word.len(),
            0 <= i <= word.len(),
            s == chars@.subrange(from as int, to as int),
            forall|k: int| 0 <= k < i ==> same_letter(#[trigger] s[k], word@[k]),
        decreases word.len() - i,
    {
        let c: char = chars[from + i];
        let letter: char = word[i];
        assert(c == s[i as int]);
        proof {
            char_is_scalar(c);
            char_is_scalar(letter);
        }
        let code: u32 = c as u32;
        let wanted: u32 = letter as u32;
        if !(c == letter || code + 32 == wanted) {
            return false;
        }
        i += 1;
    }
    true
}

/// Says whether the characters from `from` up to `to` are one of the names of
/// the values that are no finite number.
fn is_special_at(chars: &Vec<char>, from: usize, to: usize) -> (r: bool)
    requires
        from <= to <= chars.len(),
    ensures
        r == is_special(chars@.subrange(from as int, to as int)),
{
    let inf: Vec<char> = vec!['i', 'n', 'f'];
    let nan: Vec<char> = vec!['n', 'a', 'n'];
    let infinity: Vec<char> = vec!['i', 'n', 'f', 'i', 'n', 'i', 't', 'y'];
    assert(inf@ =~= seq!['i', 'n', 'f']);
    assert(nan@ =~= seq!['n', 'a', 'n']);
    assert(infinity@ =~= seq!['i', 'n', 'f', 'i', 'n', 'i', 't', 'y']);
    spells_word(chars, from, to, &inf) || spells_word(chars, from, to, &nan) || spells_word(
        chars,
        from,
        to,
        &infinity,
    )
}

/// Says whether the characters from `from` up to `to` can follow an exponent
/// mark.
fn is_exponent_at(chars: &Vec<char>, from: usize, to: usize) -> (r: bool)
    requires
        from <= to <= chars.len(),
    ensures
        r == is_exponent(chars@.subrange(from as int, to as int)),
{
    let ghost x = chars@.subrange(from as int, to as int);
    let mut j: usize = from;
    if j < to && is_sign_char(chars[j]) {
        j += 1;
    }
    proof {
        if from < to {
            assert(x[0] == chars@[from as int]);
        }
    }
    if j == to {
        return false;
    }
    let end: usize = scan_digits(chars, j, to);
    proof {
        let digits = if j == from { x } else { x.skip(1) };
        if end == to {
            assert forall|i: int| 0 <= i < digits.len() implies is_digit(#[trigger] digits[i]) by {
                assert(digits[i] == chars@[j + i]);
            }
        } else {
            assert(digits[end - j] == chars@[end as int]);
        }
    }
    end == to
}

/// Says whether the characters from `from` up to `to` are a mantissa, alone
/// or with an exponent behind it.
fn is_number_at(chars: &Vec<char>, from: usize, to: usize) -> (r: bool)
    requires
        from <= to <= chars.len(),
    ensures
        r == is_number(chars@.subrange(from as int, to as int)),
{
    let ghost t = chars@.subrange(from as int, to as int);
    let a: usize = scan_digits(chars, from, to);
    let mut b: usize = a;
    if a < to && chars[a] == '.' {
        b = scan_digits(chars, a + 1, to);
    }
    proof {
        assert forall|i: int| 0 <= i < a - from implies is_digit(#[trigger] t[i]) by {
            assert(t[i] == chars@[from + i]);
        }
        assert forall|i: int| a - from < i < b - from implies is_digit(#[trigger] t[i]) by {
            assert(t[i] == chars@[from + i]);
        }
        if b < to {
            assert(t[b - from] == chars@[b as int]);
        }
        if a < to {
            assert(t[a - from] == chars@[a as int]);
        }
        assert(scanned(t, a - from, b - from));
        lemma_number_scanned(t, a - from, b - from);
    }
    let met_digit = a > from || b - a > 1;
    if !met_digit {
        return false;
    }
    if b == to {
        return true;
    }
    if !(chars[b] == 'e' || chars[b] == 'E') {
        return false;
    }
    assert(t.skip(b - from + 1) =~= chars@.subrange(b + 1, to as int));
    is_exponent_at(chars, b + 1, to)
}

/// Says whether the characters from `from` up to `to` are a literal of the
/// grammar.
pub fn is_literal(chars: &Vec<char>, from: usize, to: usize) -> (r: bool)
    requires
        from <= to <= chars.len(),
    ensures
        r == is_float_literal(chars@.subrange(from as int, to as int)),
{
    let ghost s = chars@.subrange(from as int, to as int);
    let mut start: usize = from;
    if start < to && is_sign_char(chars[start]) {
        start += 1;
    }
    proof {
        if from < to {
            assert(s[0] == chars@[from as int]);
        }
        assert(unsigned_part(s) =~= chars@.subrange(start as int, to as int));
    }
    is_number_at(chars, start, to) || is_special_at(chars, start, to)
}

/// Says whether the text is a literal of the grammar.
pub fn is_valid_literal(text: &str) -> (r: bool)
    ensures
        r == is_float_literal(text@),
{
    let chars = chars_of(text);
    assert(chars@.subrange(0, chars@.len() as int) =~= chars@);
    is_literal(&chars, 0, chars.len())
}

} // verus!
