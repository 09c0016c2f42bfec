//! The scanner: from the text of an expression to its tokens.

use vstd::prelude::*;
use vstd::string::*;

verus! {

/// What a token is: a punctuation mark or an integer literal with its value.
#[derive(Debug, Clone, Copy, PartialEq, Eq)]
pub enum TokenKind {
    Punct,
    Num(i32),
}

/// One lexical unit, with the piece of the input that it was scanned from.
#[derive(Debug, Clone, Copy, PartialEq, Eq)]
pub struct Token<'a> {
    pub kind: TokenKind,
    pub location: &'a str,
}

/// Why an input cannot be scanned. The position counts the characters of the
/// input before the offending one.
#[derive(Debug, Clone, Copy, PartialEq, Eq)]
pub enum ScanError {
    /// The character at the position starts no token and is no whitespace.
    UnexpectedCharacter { position: usize },
    /// The literal that starts at the position does not fit in 32 bits.
    NumericOverflow { position: usize },
}

/// A token as a mathematical value: its kind and its text.
pub struct Lexeme {
    pub kind: TokenKind,
    pub text: Seq<char>,
}

impl<'a> View for Token<'a> {
    type V = Lexeme;

    open spec fn view(&self) -> Lexeme {
        Lexeme { kind: self.kind, text: self.location@ }
    }
}

/// The tokens of a sequence as mathematical values.
pub open spec fn lexemes(tokens: Seq<Token>) -> Seq<Lexeme> {
    Seq::new(tokens.len(), |i: int| tokens[i]@)
}

/// Whether `c` has the Unicode property White_Space.
pub open spec fn is_space(c: char) -> bool {
    ||| '\u{9}' <= c <= '\u{d}'
    ||| c == ' '
    ||| c == '\u{85}'
    ||| c == '\u{a0}'
    ||| c == '\u{1680}'
    ||| '\u{2000}' <= c <= '\u{200a}'
    ||| c == '\u{2028}'
    ||| c == '\u{2029}'
    ||| c == '\u{202f}'
    ||| c == '\u{205f}'
    ||| c == '\u{3000}'
}

/// Whether `c` is an ASCII decimal digit.
pub open spec fn is_digit(c: char) -> bool {
    '0' <= c <= '9'
}

/// Whether `c` is an ASCII punctuation character.
pub open spec fn is_punct(c: char) -> bool {
    ||| '!' <= c <= '/'
    ||| ':' <= c <= '@'
    ||| '[' <= c <= '`'
    ||| '{' <= c <= '~'
}

/// The value of the decimal digit `c`.
pub open spec fn digit_value(c: char) -> nat {
    (c as nat - '0' as nat) as nat
}

/// The number that a sequence of decimal digits writes.
pub open spec fn number_value(digits: Seq<char>) -> nat
    decreases digits.len(),
{
    if digits.len() == 0 {
        0
    } else {
        10 * number_value(digits.drop_last()) + digit_value(digits.last())
    }
}

/// Whether `c` has the Unicode property White_Space.
pub fn is_whitespace(c: char) -> (yes: bool)
    ensures
        yes == is_space(c),
{
    (c >= '\u{9}' && c <= '\u{d}') || c == ' ' || c == '\u{85}' || c == '\u{a0}' || c
        == '\u{1680}' || (c >= '\u{2000}' && c <= '\u{200a}') || c == '\u{2028}' || c
        == '\u{2029}' || c == '\u{202f}' || c == '\u{205f}' || c == '\u{3000}'
}

/// Whether `c` is an ASCII decimal digit.
pub fn is_ascii_digit(c: char) -> (yes: bool)
    ensures
        yes == is_digit(c),
{
    c >= '0' && c <= '9'
}

/// Whether `c` is an ASCII punctuation character.
pub fn is_ascii_punctuation(c: char) -> (yes: bool)
    ensures
        yes == is_punct(c),
{
    (c >= '!' && c <= '/') || (c >= ':' && c <= '@') || (c >= '[' && c <= '`') || (c >= '{' && c
        <= '~')
}

/// The characters of a string, in a vector.
pub fn chars_of(input: &str) -> (chars: Vec<char>)
    ensures
        chars@ == input@,
{
    let mut chars: Vec<char> = Vec::new();
    for c in it: input.chars()
        invariant
            it.seq() == input@,
            chars@ == it.seq().take(it.index()),
    {
        chars.push(c);
        assert(chars@ =~= it.seq().take(it.index() + 1));
    }
    assert(chars@ =~= input@);
    chars
}

/// The first position at or after `start` that holds no digit: where the
/// run of digits that starts at `start` ends.
pub open spec fn digits_end(s: Seq<char>, start: int) -> int
    decreases s.len() - start,
{
    if 0 <= start < s.len() && is_digit(s[start]) {
        digits_end(s, start + 1)
    } else {
        start
    }
}

/// Whether `a` followed by `b` is one of the two-character punctuation
/// marks `==`, `!=`, `<=` and `>=`.
pub open spec fn is_pair(a: char, b: char) -> bool {
    (a == '=' || a == '!' || a == '<' || a == '>') && b == '='
}

/// The length of the punctuation mark that starts at `pos`: 2 for a
/// two-character mark, else 1 for an ASCII punctuation character, else 0.
pub open spec fn punct_len(s: Seq<char>, pos: int) -> int {
    if 0 <= pos && pos + 1 < s.len() && is_pair(s[pos], s[pos + 1]) {
        2
    } else if 0 <= pos < s.len() && is_punct(s[pos]) {
        1
    } else {
        0
    }
}

/// The run of digits from `start` ends at `digits_end`: it lies within the
/// text, holds digits only, and no digit follows it.
pub proof fn lemma_digits_end(s: Seq<char>, start: int)
    requires
        0 <= start <= s.len(),
    ensures
        start <= digits_end(s, start) <= s.len(),
        forall|i: int| start <= i < digits_end(s, start) ==> is_digit(s[i]),
        digits_end(s, start) < s.len() ==> !is_digit(s[digits_end(s, start)]),
        start < s.len() && is_digit(s[start]) ==> start < digits_end(s, start),
    decreases s.len() - start,
{
    if start < s.len() && is_digit(s[start]) {
        lemma_digits_end(s, start + 1);
    }
}

/// A number is at least the number that its leading digits write.
pub proof fn lemma_number_value_prefix(digits: Seq<char>, k: int)
    requires
        0 <= k <= digits.len(),
    ensures
        number_value(digits.take(k)) <= number_value(digits),
    decreases digits.len() - k,
{
    if k == digits.len() {
        assert(digits.take(k) =~= digits);
    } else {
        lemma_number_value_prefix(digits.drop_last(), k);
        assert(digits.drop_last().take(k) =~= digits.take(k));
    }
}

/// Where the run of digits that starts at `start` ends.
fn number_end(chars: &Vec<char>, start: usize) -> (end: usize)
    requires
        start <= chars@.len(),
    ensures
        end == digits_end(chars@, start as int),
        start <= end <= chars@.len(),
{
    let mut end = start;
    while end < chars.len() && is_ascii_digit(chars[end])
        invariant
            start <= end <= chars@.len(),
            digits_end(chars@, start as int) == digits_end(chars@, end as int),
        decreases chars@.len() - end,
    {
        end += 1;
    }
    end
}

/// The value of the digits from `start` to `end`, unless it exceeds the
/// largest 32-bit signed number.
fn number_of(chars: &Vec<char>, start: usize, end: usize) -> (value: Option<i32>)
    requires
        start <= end <= chars@.len(),
        forall|i: int| start <= i < end ==> is_digit(chars@[i]),
    ensures
        match value {
            Some(v) => v == number_value(chars@.subrange(start as int, end as int)),
            None => number_value(chars@.subrange(start as int, end as int)) > i32::MAX,
        },
{
    let ghost digits = chars@.subrange(start as int, end as int);
    let mut value: i64 = 0;
    let mut i = start;
    while i < end
        invariant
            start <= i <= end <= chars@.len(),
            digits == chars@.subrange(start as int, end as int),
            forall|j: int| start <= j < end ==> is_digit(chars@[j]),
            0 <= value <= i32::MAX,
            value == number_value(digits.take(i - start)),
        decreases end - i,
    {
        let digit = (chars[i] as u32 - '0' as u32) as i64;
        proof {
            assert(digits.take(i + 1 - start).drop_last() =~= digits.take(i - start));
            assert(digits.take(i + 1 - start).last() == chars@[i as int]);
            assert(digit == digit_value(chars@[i as int]));
        }
        value = value * 10 + digit;
        i += 1;
        if value > i32::MAX as i64 {
            proof {
                lemma_number_value_prefix(digits, i - start);
            }
            return None;
        }
    }
    assert(digits.take(end - start) =~= digits);
    Some(value as i32)
}

/// The longest prefix of `p` that consists of ASCII decimal digits.
pub fn get_number(p: &str) -> (digits: &str)
    ensures
        digits@ == p@.take(digits_end(p@, 0)),
        forall|i: int| 0 <= i < digits@.len() ==> is_digit(digits@[i]),
        digits@.len() < p@.len() ==> !is_digit(p@[digits@.len() as int]),
{
    let chars = chars_of(p);
    let end = number_end(&chars, 0);
    proof {
        lemma_digits_end(p@, 0);
    }
    p.substring_char(0, end)
}

/// The length of the punctuation mark that starts at `pos`: 2 for `==`,
/// `!=`, `<=` and `>=`, else 1 for an ASCII punctuation character, else 0.
pub fn read_punct(chars: &Vec<char>, pos: usize) -> (len: usize)
    ensures
        len == punct_len(chars@, pos as int),
{
    if pos >= chars.len() {
        return 0;
    }
    let first = chars[pos];
    if pos + 1 < chars.len() {
        let second = chars[pos + 1];
        if (first == '=' || first == '!' || first == '<' || first == '>') && second == '=' {
            return 2;
        }
    }
    if is_ascii_punctuation(first) {
        1
    } else {
        0
    }
}

/// The place of a token in the text: its kind, the position of its first
/// character and the position after its last.
pub struct Span {
    pub kind: TokenKind,
    pub start: int,
    pub end: int,
}

/// The token found at a place of the text.
pub open spec fn lexeme_at(s: Seq<char>, span: Span) -> Lexeme {
    Lexeme { kind: span.kind, text: s.subrange(span.start, span.end) }
}

/// The tokens found at a sequence of places of the text.
pub open spec fn lexemes_at(s: Seq<char>, spans: Seq<Span>) -> Seq<Lexeme> {
    Seq::new(spans.len(), |i: int| lexeme_at(s, spans[i]))
}

/// A token followed by the outcome of scanning what comes after it.
pub open spec fn followed(first: Span, rest: Result<Seq<Span>, ScanError>) -> Result<
    Seq<Span>,
    ScanError,
> {
    match rest {
        Ok(spans) => Ok(seq![first] + spans),
        Err(e) => Err(e),
    }
}

/// The places of the tokens of `s` from `pos` on, or the first error.
///
/// Whitespace is skipped. A digit starts a literal that takes the whole run
/// of digits, and whose value must fit in 32 bits. Anything else must start
/// a punctuation mark, of two characters where the text has one there.
pub open spec fn spans_from(s: Seq<char>, pos: int) -> Result<Seq<Span>, ScanError>
    decreases s.len() - pos,
{
    if pos < 0 || pos >= s.len() {
        Ok(Seq::empty())
    } else if is_space(s[pos]) {
        spans_from(s, pos + 1)
    } else if is_digit(s[pos]) {
        let end = digits_end(s, pos);
        let value = number_value(s.subrange(pos, end));
        if value > i32::MAX {
            Err(ScanError::NumericOverflow { position: pos as usize })
        } else {
            proof {
                lemma_digits_end(s, pos);
            }
            followed(
                Span { kind: TokenKind::Num(value as i32), start: pos, end },
                spans_from(s, end),
            )
        }
    } else if punct_len(s, pos) > 0 {
        followed(
            Span { kind: TokenKind::Punct, start: pos, end: pos + punct_len(s, pos) },
            spans_from(s, pos + punct_len(s, pos)),
        )
    } else {
        Err(ScanError::UnexpectedCharacter { position: pos as usize })
    }
}

/// The tokens of the text `s`, or the first error that scanning meets.
pub open spec fn scan(s: Seq<char>) -> Result<Seq<Lexeme>, ScanError> {
    match spans_from(s, 0) {
        Ok(spans) => Ok(lexemes_at(s, spans)),
        Err(e) => Err(e),
    }
}

/// Whether the character at `p` belongs to one of the tokens at `spans`.
pub open spec fn covered(spans: Seq<Span>, p: int) -> bool {
    exists|i: int| 0 <= i < spans.len() && (#[trigger] spans[i]).start <= p < spans[i].end
}

/// Whether the tokens at `spans` lie in the text from `pos` on, one after
/// the other, none empty and no two overlapping.
pub open spec fn in_order(s: Seq<char>, spans: Seq<Span>, pos: int) -> bool {
    &&& forall|i: int|
        0 <= i < spans.len() ==> pos <= (#[trigger] spans[i]).start < spans[i].end <= s.len()
    &&& forall|i: int, j: int|
        0 <= i < j < spans.len() ==> (#[trigger] spans[i]).end <= (#[trigger] spans[j]).start
}

/// Whether the token at `span` has the shape of its kind: a literal is a
/// whole run of digits with the literal's value, and a punctuation mark is
/// two characters long where the text has a two-character mark there, and
/// one ASCII punctuation character long else.
pub open spec fn well_shaped(s: Seq<char>, span: Span) -> bool {
    match span.kind {
        TokenKind::Num(v) => {
            &&& is_digit(s[span.start])
            &&& span.end == digits_end(s, span.start)
            &&& v == number_value(s.subrange(span.start, span.end))
        },
        TokenKind::Punct => {
            &&& !is_digit(s[span.start])
            &&& span.end == span.start + punct_len(s, span.start)
        },
    }
}

/// A character that starts a token or continues one is no whitespace.
proof fn lemma_token_chars(s: Seq<char>, pos: int, p: int)
    requires
        0 <= pos <= p < s.len(),
        is_digit(s[pos]) && p < digits_end(s, pos) || p < pos + punct_len(s, pos),
    ensures
        !is_space(s[p]),
{
    if is_digit(s[pos]) && p < digits_end(s, pos) {
        lemma_digits_end(s, pos);
    }
}

/// The tokens tile the text: where the text scans from `pos` on, its
/// tokens lie in it one after the other, each has the shape of its kind,
/// and a character from `pos` on is whitespace if and only if it belongs to
/// no token.
pub proof fn lemma_scan_tiles(s: Seq<char>, pos: int)
    requires
        0 <= pos <= s.len(),
        spans_from(s, pos) is Ok,
    ensures
        in_order(s, spans_from(s, pos)->Ok_0, pos),
        forall|i: int|
            0 <= i < spans_from(s, pos)->Ok_0.len() ==> well_shaped(
                s,
                #[trigger] spans_from(s, pos)->Ok_0[i],
            ),
        forall|p: int|
            pos <= p < s.len() ==> (is_space(s[p]) <==> !#[trigger] covered(
                spans_from(s, pos)->Ok_0,
                p,
            )),
    decreases s.len() - pos,
{
    let spans = spans_from(s, pos)->Ok_0;
    if pos >= s.len() {
    } else if is_space(s[pos]) {
        lemma_scan_tiles(s, pos + 1);
        assert forall|p: int| pos <= p < s.len() implies (is_space(s[p]) <==> !#[trigger] covered(
            spans,
            p,
        )) by {
            if p == pos && covered(spans, p) {
                let i = choose|i: int| 0 <= i < spans.len() && (#[trigger] spans[i]).start <= p
                    < spans[i].end;
                assert(pos + 1 <= spans[i].start);
            }
        }
    } else {
        let end = if is_digit(s[pos]) {
            digits_end(s, pos)
        } else {
            pos + punct_len(s, pos)
        };
        lemma_digits_end(s, pos);
        lemma_scan_tiles(s, end);
        let rest = spans_from(s, end)->Ok_0;
        let first = spans[0];
        assert(spans =~= seq![first] + rest);
        assert(first.start == pos && first.end == end);
        assert forall|i: int| 0 <= i < spans.len() implies pos <= (#[trigger] spans[i]).start
            < spans[i].end <= s.len() && well_shaped(s, spans[i]) by {
            if i > 0 {
                assert(spans[i] == rest[i - 1]);
            }
        }
        assert forall|i: int, j: int| 0 <= i < j < spans.len() implies (#[trigger] spans[i]).end
            <= (#[trigger] spans[j]).start by {
            assert(spans[j] == rest[j - 1]);
            if i > 0 {
                assert(spans[i] == rest[i - 1]);
            }
        }
        assert forall|p: int| pos <= p < s.len() implies (is_space(s[p]) <==> !#[trigger] covered(
            spans,
            p,
        )) by {
            if p < end {
                lemma_token_chars(s, pos, p);
                assert(spans[0].start <= p < spans[0].end);
            } else {
                if covered(spans, p) {
                    let i = choose|i: int| 0 <= i < spans.len() && (#[trigger] spans[i]).start <= p
                        < spans[i].end;
                    assert(i > 0);
                    assert(spans[i] == rest[i - 1]);
                    assert(rest[i - 1].start <= p < rest[i - 1].end);
                    assert(covered(rest, p));
                }
                if covered(rest, p) {
                    let i = choose|i: int| 0 <= i < rest.len() && (#[trigger] rest[i]).start <= p
                        < rest[i].end;
                    assert(spans[i + 1] == rest[i]);
                    assert(spans[i + 1].start <= p < spans[i + 1].end);
                    assert(covered(spans, p));
                }
            }
        }
    }
}

/// The outcome of scanning, when `done` holds the places found so far and
/// `rest` is the outcome of scanning what comes after them.
pub open spec fn after(done: Seq<Span>, rest: Result<Seq<Span>, ScanError>) -> Result<
    Seq<Span>,
    ScanError,
> {
    match rest {
        Ok(spans) => Ok(done + spans),
        Err(e) => Err(e),
    }
}

/// A token that follows the ones found so far may be counted among them.
proof fn lemma_after_followed(done: Seq<Span>, next: Span, rest: Result<Seq<Span>, ScanError>)
    ensures
        after(done, followed(next, rest)) == after(done.push(next), rest),
{
    if let Ok(spans) = rest {
        assert(done + (seq![next] + spans) =~= done.push(next) + spans);
    }
}

/// The mathematical values of a token sequence extended by one token.
pub proof fn lemma_lexemes_push(tokens: Seq<Token>, token: Token)
    ensures
        lexemes(tokens.push(token)) == lexemes(tokens).push(token@),
{
    assert(lexemes(tokens.push(token)) =~= lexemes(tokens).push(token@));
}

/// The tokens found at a sequence of places extended by one place.
proof fn lemma_lexemes_at_push(s: Seq<char>, spans: Seq<Span>, span: Span)
    ensures
        lexemes_at(s, spans.push(span)) == lexemes_at(s, spans).push(lexeme_at(s, span)),
{
    assert(lexemes_at(s, spans.push(span)) =~= lexemes_at(s, spans).push(lexeme_at(s, span)));
}

/// Scans the input into its tokens.
///
/// Each token carries the piece of the input that it was scanned from. The
/// scan fails at the first literal that does not fit in 32 bits, and at the
/// first character that is neither whitespace nor the start of a token.
pub fn tokenize<'a>(input: &'a str) -> (result: Result<Vec<Token<'a>>, ScanError>)
    ensures
        match result {
            Ok(tokens) => scan(input@) == Ok::<Seq<Lexeme>, ScanError>(lexemes(tokens@)),
            Err(e) => scan(input@) == Err::<Seq<Lexeme>, ScanError>(e),
        },
{
    let chars = chars_of(input);
    let mut tokens: Vec<Token<'a>> = Vec::new();
    let ghost mut done: Seq<Span> = Seq::empty();
    let mut pos: usize = 0;
    assert(Seq::<Span>::empty() + spans_from(input@, 0)->Ok_0 =~= spans_from(input@, 0)->Ok_0);
    while pos < chars.len()
        invariant
            chars@ == input@,
            pos <= chars@.len(),
            spans_from(input@, 0) == after(done, spans_from(input@, pos as int)),
            lexemes(tokens@) == lexemes_at(input@, done),
        decreases chars@.len() - pos,
    {
        let c = chars[pos];
        if is_whitespace(c) {
            pos += 1;
        } else if is_ascii_digit(c) {
            let end = number_end(&chars, pos);
            proof {
                lemma_digits_end(input@, pos as int);
            }
            match number_of(&chars, pos, end) {
                Some(value) => {
                    let location = input.substring_char(pos, end);
                    let ghost span = Span {
                        kind: TokenKind::Num(value),
                        start: pos as int,
                        end: end as int,
                    };
                    proof {
                        lemma_after_followed(done, span, spans_from(input@, end as int));
                        lemma_lexemes_push(
                            tokens@,
                            Token { kind: TokenKind::Num(value), location },
                        );
                        lemma_lexemes_at_push(input@, done, span);
                        done = done.push(span);
                    }
                    tokens.push(Token { kind: TokenKind::Num(value), location });
                    pos = end;
                },
                None => {
                    return Err(ScanError::NumericOverflow { position: pos });
                },
            }
        } else {
            let len = read_punct(&chars, pos);
            if len == 0 {
                return Err(ScanError::UnexpectedCharacter { position: pos });
            }
            let location = input.substring_char(pos, pos + len);
            let ghost span = Span {
                kind: TokenKind::Punct,
                start: pos as int,
                end: pos + len,
            };
            proof {
                lemma_after_followed(done, span, spans_from(input@, pos + len));
                lemma_lexemes_push(tokens@, Token { kind: TokenKind::Punct, location });
                lemma_lexemes_at_push(input@, done, span);
                done = done.push(span);
            }
            tokens.push(Token { kind: TokenKind::Punct, location });
            pos += len;
        }
    }
    assert(done + Seq::<Span>::empty() =~= done);
    Ok(tokens)
}

} // verus!
