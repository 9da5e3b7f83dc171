//! Angles written as degrees, minutes and seconds.
//!
//! Such a text holds three tokens, white space between them: the degrees
//! with a unit sign of two bytes behind them (the degree sign), the minutes
//! with one of one byte (an apostrophe), the seconds with one of two bytes
//! (two apostrophes). What stands before each unit sign is a decimal
//! floating-point literal. Tokens after the third are not read.
//!
//! The unit signs are measured, not compared: a token loses its last bytes
//! whatever they are.

use vstd::prelude::*;
use vstd::string::StringExecFns;
use vstd::string::StrSliceExecFns;
use vstd::utf8::encode_utf8;
use crate::number::{is_float_literal, is_literal};
use crate::text::{chars_of, next_token, tokens, utf8_width, width_of};

verus! {

/// One of the three numbers of an angle.
#[derive(Clone, Copy, Debug, PartialEq, Eq, Structural)]
pub enum DmsField {
    Degrees,
    Minutes,
    Seconds,
}

/// Why a text is no angle.
#[derive(Clone, Copy, Debug, PartialEq, Eq, Structural)]
pub enum Failure {
    /// The text has too few tokens to hold the field.
    MissingToken,
    /// The token is shorter than its unit sign.
    ShortToken,
    /// What stands before the unit sign is no number.
    NotANumber,
}

/// Which of a point's two angles.
#[derive(Clone, Copy, Debug, PartialEq, Eq, Structural)]
pub enum Axis {
    Longitude,
    Latitude,
}

/// Why a pair of texts is no point: the first field that fails, the
/// longitude's before the latitude's, and its failure.
#[derive(Clone, Copy, Debug, PartialEq, Eq, Structural)]
pub struct GeoParseError {
    pub axis: Axis,
    pub field: DmsField,
    pub failure: Failure,
}

/// The three numbers of an angle, each as the literal that was written.
#[derive(Clone, Debug)]
pub struct DmsAngle {
    pub degrees: String,
    pub minutes: String,
    pub seconds: String,
}

/// The three literals of an angle, as sequences of characters.
pub struct DmsText {
    pub degrees: Seq<char>,
    pub minutes: Seq<char>,
    pub seconds: Seq<char>,
}

impl View for DmsAngle {
    type V = DmsText;

    open spec fn view(&self) -> DmsText {
        DmsText { degrees: self.degrees@, minutes: self.minutes@, seconds: self.seconds@ }
    }
}

/// A longitude and a latitude, each as its three literals.
#[derive(Clone, Debug)]
pub struct DmsPair {
    pub lon: DmsAngle,
    pub lat: DmsAngle,
}

/// The place of the field's token in the text.
pub open spec fn token_index(field: DmsField) -> int {
    match field {
        DmsField::Degrees => 0,
        DmsField::Minutes => 1,
        DmsField::Seconds => 2,
    }
}

/// The number of bytes of the field's unit sign.
pub open spec fn unit_len(field: DmsField) -> int {
    match field {
        DmsField::Degrees => 2,
        DmsField::Minutes => 1,
        DmsField::Seconds => 2,
    }
}

/// The number of bytes of a text in UTF-8.
pub open spec fn byte_len(s: Seq<char>) -> int {
    encode_utf8(s).len() as int
}

/// The last `n` bytes of `token` begin with its character `k`.
pub open spec fn cuts_at(token: Seq<char>, n: int, k: int) -> bool {
    0 <= k <= token.len() && byte_len(token.skip(k)) == n
}

/// What the token gives for a field whose unit sign takes `n` bytes: the
/// token without its last `n` bytes, where that is a literal.
///
/// A token of fewer bytes is too short. Where the last `n` bytes begin
/// inside a character, what is left is no text, and so no number.
pub open spec fn field_text(token: Seq<char>, n: int) -> Result<Seq<char>, Failure> {
    if byte_len(token) < n {
        Err(Failure::ShortToken)
    } else if exists|k: int| cuts_at(token, n, k) && is_float_literal(token.take(k)) {
        Ok(token.take(choose|k: int| cuts_at(token, n, k) && is_float_literal(token.take(k))))
    } else {
        Err(Failure::NotANumber)
    }
}

/// What a text's tokens give for a field.
pub open spec fn field_of(toks: Seq<Seq<char>>, field: DmsField) -> Result<Seq<char>, Failure> {
    if toks.len() <= token_index(field) {
        Err(Failure::MissingToken)
    } else {
        field_text(toks[token_index(field)], unit_len(field))
    }
}

/// The angle that a text stands for, or the first field that fails, in the
/// order degrees, minutes, seconds, with its failure.
pub open spec fn parse_angle(s: Seq<char>) -> Result<DmsText, (DmsField, Failure)> {
    let toks = tokens(s);
    match field_of(toks, DmsField::Degrees) {
        Err(f) => Err((DmsField::Degrees, f)),
        Ok(degrees) => match field_of(toks, DmsField::Minutes) {
            Err(f) => Err((DmsField::Minutes, f)),
            Ok(minutes) => match field_of(toks, DmsField::Seconds) {
                Err(f) => Err((DmsField::Seconds, f)),
                Ok(seconds) => Ok(DmsText { degrees, minutes, seconds }),
            },
        },
    }
}

/// The two angles that a longitude text and a latitude text stand for, or the
/// first failure, the longitude's before the latitude's.
pub open spec fn parse_pair(lon: Seq<char>, lat: Seq<char>) -> Result<
    (DmsText, DmsText),
    GeoParseError,
> {
    match parse_angle(lon) {
        Err(e) => Err(GeoParseError { axis: Axis::Longitude, field: e.0, failure: e.1 }),
        Ok(lon_text) => match parse_angle(lat) {
            Err(e) => Err(GeoParseError { axis: Axis::Latitude, field: e.0, failure: e.1 }),
            Ok(lat_text) => Ok((lon_text, lat_text)),
        },
    }
}

/// The axis in words.
pub open spec fn axis_name(axis: Axis) -> Seq<char> {
    match axis {
        Axis::Longitude => "longitude"@,
        Axis::Latitude => "latitude"@,
    }
}

/// The field in words.
pub open spec fn field_name(field: DmsField) -> Seq<char> {
    match field {
        DmsField::Degrees => "degrees"@,
        DmsField::Minutes => "minutes"@,
        DmsField::Seconds => "seconds"@,
    }
}

/// The failure in words.
pub open spec fn failure_text(failure: Failure) -> Seq<char> {
    match failure {
        Failure::MissingToken => "the text has fewer than three tokens"@,
        Failure::ShortToken => "the token is shorter than its unit sign"@,
        Failure::NotANumber => "what stands before the unit sign is no number"@,
    }
}

/// A text's bytes are those of its first character and those of the rest.
pub proof fn lemma_byte_len_step(s: Seq<char>, k: int)
    requires
        0 <= k < s.len(),
    ensures
        byte_len(s.skip(k)) == utf8_width(s[k]) + byte_len(s.skip(k + 1)),
{
    let tail = s.skip(k);
    assert(tail[0] == s[k]);
    assert(tail.drop_first() =~= s.skip(k + 1));
}

/// A longer end of a text has more bytes: at least one for each character.
pub proof fn lemma_byte_len_grows(s: Seq<char>, i: int, j: int)
    requires
        0 <= i <= j <= s.len(),
    ensures
        byte_len(s.skip(i)) >= byte_len(s.skip(j)) + (j - i),
    decreases j - i,
{
    if i < j {
        lemma_byte_len_step(s, i);
        vstd::utf8::char_is_scalar(s[i]);
        lemma_byte_len_grows(s, i + 1, j);
    }
}

/// The last `n` bytes of a token begin at one place at most.
pub proof fn lemma_cut_unique(token: Seq<char>, n: int, k1: int, k2: int)
    requires
        cuts_at(token, n, k1),
        cuts_at(token, n, k2),
    ensures
        k1 == k2,
{
    if k1 < k2 {
        lemma_byte_len_grows(token, k1, k2);
    }
    if k2 < k1 {
        lemma_byte_len_grows(token, k2, k1);
    }
}

/// Where the last `n` bytes of a token begin with its character `k`, the
/// field is what stands before them, if that is a literal.
pub proof fn lemma_field_at_cut(token: Seq<char>, n: int, k: int)
    requires
        cuts_at(token, n, k),
    ensures
        field_text(token, n) == if is_float_literal(token.take(k)) {
            Ok::<Seq<char>, Failure>(token.take(k))
        } else {
            Err(Failure::NotANumber)
        },
{
    lemma_byte_len_grows(token, 0, k);
    assert(token.skip(0) =~= token);
    assert forall|j: int| cuts_at(token, n, j) implies j == k by {
        lemma_cut_unique(token, n, j, k);
    }
}

/// Between an end of more than `n` bytes and the next end, of fewer, the last
/// `n` bytes begin inside a character.
pub proof fn lemma_no_cut(token: Seq<char>, n: int, k: int)
    requires
        0 <= k < token.len(),
        byte_len(token.skip(k)) > n,
        byte_len(token.skip(k + 1)) < n,
    ensures
        forall|j: int| !cuts_at(token, n, j),
{
    assert forall|j: int| !cuts_at(token, n, j) by {
        if 0 <= j <= k {
            lemma_byte_len_grows(token, j, k);
        }
        if k + 1 <= j <= token.len() {
            lemma_byte_len_grows(token, k + 1, j);
        }
    }
}

/// Reads one field from its token, the characters from `start` up to `end`
/// of the text, whose unit sign takes `n` bytes.
fn read_field(text: &str, chars: &Vec<char>, start: usize, end: usize, n: usize) -> (r: Result<
    String,
    Failure,
>)
    requires
        chars@ == text@,
        start <= end <= chars.len(),
        1 <= n <= 2,
    ensures
        field_text(chars@.subrange(start as int, end as int), n as int) == match r {
            Ok(literal) => Ok(literal@),
            Err(f) => Err(f),
        },
{
    let ghost token = chars@.subrange(start as int, end as int);
    let mut k: usize = end;
    let mut total: usize = 0;
    let ghost mut before: int = 0;
    proof {
        assert(token.skip(token.len() as int) =~= Seq::<char>::empty());
    }
    while k > start && total < n
        invariant
            start <= k <= end <= chars.len(),
            token == chars@.subrange(start as int, end as int),
            total == byte_len(token.skip(k - start)),
            k < end ==> before == byte_len(token.skip(k - start + 1)) && before < n,
            k == end ==> total == 0,
            total <= 5,
            1 <= n <= 2,
        decreases k,
    {
        proof {
            before = total as int;
            lemma_byte_len_step(token, k - 1 - start);
            assert(token[k - 1 - start] == chars@[k - 1]);
        }
        k -= 1;
        total += width_of(chars[k]);
    }
    if total < n {
        assert(token.skip(0) =~= token);
        return Err(Failure::ShortToken);
    }
    if total > n {
        proof {
            lemma_byte_len_grows(token, 0, k - start);
            assert(token.skip(0) =~= token);
            lemma_no_cut(token, n as int, k - start);
        }
        return Err(Failure::NotANumber);
    }
    proof {
        lemma_field_at_cut(token, n as int, k - start);
        assert(token.take(k - start) =~= chars@.subrange(start as int, k as int));
    }
    if !is_literal(chars, start, k) {
        return Err(Failure::NotANumber);
    }
    let literal = String::from_str(text.substring_char(start, k));
    Ok(literal)
}

impl DmsAngle {
    /// Reads an angle from its text. Where the text is no angle, names the
    /// first field that fails and why.
    pub fn parse(text: &str) -> (r: Result<DmsAngle, (DmsField, Failure)>)
        ensures
            parse_angle(text@) == match r {
                Ok(angle) => Ok(angle@),
                Err(e) => Err(e),
            },
    {
        let chars = chars_of(text);
        let ghost toks = tokens(text@);
        proof {
            assert(chars@.skip(0) =~= chars@);
        }
        let (s0, e0) = next_token(&chars, 0);
        if s0 == chars.len() {
            return Err((DmsField::Degrees, Failure::MissingToken));
        }
        assert(toks[0] == chars@.subrange(s0 as int, e0 as int));
        let degrees = match read_field(text, &chars, s0, e0, 2) {
            Ok(literal) => literal,
            Err(f) => {
                return Err((DmsField::Degrees, f));
            },
        };
        let (s1, e1) = next_token(&chars, e0);
        if s1 == chars.len() {
            assert(toks.len() == 1);
            return Err((DmsField::Minutes, Failure::MissingToken));
        }
        assert(toks[1] == chars@.subrange(s1 as int, e1 as int));
        let minutes = match read_field(text, &chars, s1, e1, 1) {
            Ok(literal) => literal,
            Err(f) => {
                return Err((DmsField::Minutes, f));
            },
        };
        let (s2, e2) = next_token(&chars, e1);
        if s2 == chars.len() {
            assert(toks.len() == 2);
            return Err((DmsField::Seconds, Failure::MissingToken));
        }
        assert(toks[2] == chars@.subrange(s2 as int, e2 as int));
        let seconds = match read_field(text, &chars, s2, e2, 2) {
            Ok(literal) => literal,
            Err(f) => {
                return Err((DmsField::Seconds, f));
            },
        };
        Ok(DmsAngle { degrees, minutes, seconds })
    }
}

impl GeoParseError {
    /// The error in words: the axis, the field, a colon and the failure.
    pub open spec fn text(self) -> Seq<char> {
        axis_name(self.axis) + " "@ + field_name(self.field) + ": "@ + failure_text(self.failure)
    }

    /// The error in words, for a reader.
    pub fn message(&self) -> (s: String)
        ensures
            s@ == self.text(),
    {
        let axis = match self.axis {
            Axis::Longitude => "longitude",
            Axis::Latitude => "latitude",
        };
        let field = match self.field {
            DmsField::Degrees => "degrees",
            DmsField::Minutes => "minutes",
            DmsField::Seconds => "seconds",
        };
        let failure = match self.failure {
            Failure::MissingToken => "the text has fewer than three tokens",
            Failure::ShortToken => "the token is shorter than its unit sign",
            Failure::NotANumber => "what stands before the unit sign is no number",
        };
        let mut s = String::from_str(axis);
        s.append(" ");
        s.append(field);
        s.append(": ");
        s.append(failure);
        s
    }
}

} // verus!
