//! Splitting schema text into located lexems.
use vstd::prelude::*;
use crate::error::{ProtoError, ProtoErrorV};
use crate::text::push_char;

verus! {

/// A line and column in a source file, both counted from 1.
#[derive(Debug, Clone, Copy)]
pub struct Position {
    pub line: usize,
    pub column: usize,
}

/// A character together with where it stands.
#[derive(Debug, Clone, Copy)]
pub struct LocatedChar {
    pub ch: char,
    pub position: Position,
}

/// The result of scanning a text: its located characters and the next position.
pub open spec fn char_scan(s: Seq<char>) -> (Seq<LocatedChar>, int, int)
    decreases s.len(),
{
    if s.len() == 0 {
        (Seq::empty(), 1, 1)
    } else {
        let prev = char_scan(s.drop_last());
        let acc = prev.0;
        let line = prev.1;
        let column = prev.2;
        let ch = s.last();
        if ch == '\u{feff}' {
            (acc, line, column)
        } else {
            let acc2 = acc.push(
                LocatedChar { ch, position: Position { line: line as usize, column: column as usize } },
            );
            if ch == '\n' {
                (acc2, line + 1, 1)
            } else {
                (acc2, line, column + 1)
            }
        }
    }
}

/// The located characters of a text: byte order marks are skipped, a newline
/// starts the next line.
pub open spec fn located_chars(s: Seq<char>) -> Seq<LocatedChar> {
    char_scan(s).0
}

proof fn lemma_char_scan_bounds(s: Seq<char>)
    ensures
        1 <= char_scan(s).1 <= s.len() + 1,
        1 <= char_scan(s).2 <= s.len() + 1,
    decreases s.len(),
{
    if s.len() > 0 {
        lemma_char_scan_bounds(s.drop_last());
    }
}

/// Locates each character of a text (byte order marks are dropped).
pub fn read_chars(content: &str) -> (r: Vec<LocatedChar>)
    requires
        content@.len() < usize::MAX,
    ensures
        r@ == located_chars(content@),
{
    let mut located: Vec<LocatedChar> = Vec::new();
    let mut line: usize = 1;
    let mut column: usize = 1;
    let ghost s = content@;
    broadcast use vstd::string::axiom_spec_iter;
    for ch in it: content.chars()
        invariant
            s == content@,
            s.len() < usize::MAX,
            it.seq() == s,
            (located@, line as int, column as int) == char_scan(s.take(it.index() as int)),
    {
        proof {
            lemma_char_scan_bounds(s.take(it.index() as int));
            assert(s.take(it.index() + 1).drop_last() =~= s.take(it.index() as int));
        }
        if ch != '\u{feff}' {
            located.push(LocatedChar { ch, position: Position { line, column } });
            if ch == '\n' {
                line = line + 1;
                column = 1;
            } else {
                column = column + 1;
            }
        }
    }
    proof {
        assert(s.take(s.len() as int) =~= s);
    }
    located
}

} // verus!

verus! {

/// A lexical unit of the schema language.
#[derive(Debug)]
pub enum Lexem {
    Id(String),
    Equal,
    StringLiteral(String),
    SemiColon,
    Dot,
    IntLiteral(i64),
    OpenCurly,
    CloseCurly,
    OpenBracket,
    CloseBracket,
    EOF,
}

/// Model of a lexem.
pub enum LexemV {
    Id(Seq<char>),
    Equal,
    StringLiteral(Seq<char>),
    SemiColon,
    Dot,
    IntLiteral(int),
    OpenCurly,
    CloseCurly,
    OpenBracket,
    CloseBracket,
    EOF,
}

impl View for Lexem {
    type V = LexemV;

    open spec fn view(&self) -> LexemV {
        match self {
            Lexem::Id(s) => LexemV::Id(s@),
            Lexem::Equal => LexemV::Equal,
            Lexem::StringLiteral(s) => LexemV::StringLiteral(s@),
            Lexem::SemiColon => LexemV::SemiColon,
            Lexem::Dot => LexemV::Dot,
            Lexem::IntLiteral(i) => LexemV::IntLiteral(*i as int),
            Lexem::OpenCurly => LexemV::OpenCurly,
            Lexem::CloseCurly => LexemV::CloseCurly,
            Lexem::OpenBracket => LexemV::OpenBracket,
            Lexem::CloseBracket => LexemV::CloseBracket,
            Lexem::EOF => LexemV::EOF,
        }
    }
}

/// The first and last position a lexem covers.
#[derive(Debug, Clone, Copy)]
pub struct SourceRange {
    pub start: Position,
    pub end: Position,
}

/// A lexem with the range it was read from.
#[derive(Debug)]
pub struct LocatedLexem {
    pub lexem: Lexem,
    pub range: SourceRange,
}

/// Model of a located lexem.
pub struct LocatedLexemV {
    pub lexem: LexemV,
    pub range: SourceRange,
}

impl View for LocatedLexem {
    type V = LocatedLexemV;

    open spec fn view(&self) -> LocatedLexemV {
        LocatedLexemV { lexem: self.lexem@, range: self.range }
    }
}

/// Unicode `White_Space`, as `char::is_whitespace` documents it.
pub open spec fn spec_is_whitespace(c: char) -> bool {
    ||| '\t' <= c <= '\r'
    ||| c == ' '
    ||| c == '\u{85}'
    ||| c == '\u{a0}'
    ||| c == '\u{1680}'
    ||| '\u{2000}' <= c <= '\u{200a}'
    ||| c == '\u{2028}'
    ||| c == '\u{2029}'
    ||| c == '\u{202f}'
    ||| c == '\u{205f}'
    ||| c == '\u{3000}'
}

/// Whether `c` is white space.
pub fn is_whitespace(c: char) -> (r: bool)
    ensures
        r == spec_is_whitespace(c),
{
    ('\t' <= c && c <= '\r') || c == ' ' || c == '\u{85}' || c == '\u{a0}' || c == '\u{1680}'
        || ('\u{2000}' <= c && c <= '\u{200a}') || c == '\u{2028}' || c == '\u{2029}'
        || c == '\u{202f}' || c == '\u{205f}' || c == '\u{3000}'
}

/// A decimal digit.
pub open spec fn spec_is_digit(c: char) -> bool {
    '0' <= c <= '9'
}

/// Whether `c` is a decimal digit.
pub fn is_digit(c: char) -> (r: bool)
    ensures
        r == spec_is_digit(c),
{
    '0' <= c && c <= '9'
}

/// What `char::is_alphanumeric` returns for a character.
pub uninterp spec fn spec_is_alphanumeric(c: char) -> bool;

/// Calls `char::is_alphanumeric` (Unicode `Alphabetic` or `Numeric`); the
/// result is named, not described.
#[verifier::external_body]
fn is_alphanumeric(c: char) -> (r: bool)
    ensures
        r == spec_is_alphanumeric(c),
{
    c.is_alphanumeric()
}

/// A character that may stand in an identifier.
pub open spec fn spec_is_id_char(c: char) -> bool {
    spec_is_alphanumeric(c) || c == '_'
}

/// Whether `c` may stand in an identifier.
pub fn is_id_char(c: char) -> (r: bool)
    ensures
        r == spec_is_id_char(c),
{
    is_alphanumeric(c) || c == '_'
}

/// The value of a digit.
pub open spec fn digit_value(c: char) -> int {
    c as int - '0' as int
}

/// The value of a sequence of digits, most significant first.
pub open spec fn digits_value(t: Seq<char>) -> int
    decreases t.len(),
{
    if t.len() == 0 {
        0
    } else {
        digits_value(t.drop_last()) * 10 + digit_value(t.last())
    }
}

pub open spec fn all_digits(t: Seq<char>) -> bool {
    forall|k: int| 0 <= k < t.len() ==> spec_is_digit(#[trigger] t[k])
}

/// What `i64::from_str_radix(t, 10)` yields: an optional sign followed by at
/// least one digit, whose value fits in an `i64`.
pub open spec fn spec_parse_i64(t: Seq<char>) -> Option<int> {
    if t.len() > 0 && t[0] == '-' {
        let r = t.drop_first();
        if r.len() > 0 && all_digits(r) && -digits_value(r) >= i64::MIN {
            Some(-digits_value(r))
        } else {
            None
        }
    } else if t.len() > 0 && t[0] == '+' {
        let r = t.drop_first();
        if r.len() > 0 && all_digits(r) && digits_value(r) <= i64::MAX {
            Some(digits_value(r))
        } else {
            None
        }
    } else if t.len() > 0 && all_digits(t) && digits_value(t) <= i64::MAX {
        Some(digits_value(t))
    } else {
        None
    }
}

proof fn lemma_digits_value_nonneg(t: Seq<char>)
    requires
        all_digits(t),
    ensures
        digits_value(t) >= 0,
    decreases t.len(),
{
    if t.len() > 0 {
        assert(all_digits(t.drop_last())) by {
            assert forall|k: int| 0 <= k < t.drop_last().len() implies spec_is_digit(
                #[trigger] t.drop_last()[k],
            ) by {
                assert(t.drop_last()[k] == t[k]);
            }
        }
        lemma_digits_value_nonneg(t.drop_last());
        assert(spec_is_digit(t[t.len() - 1]));
    }
}

proof fn lemma_digits_value_grows(t: Seq<char>, k: int)
    requires
        all_digits(t),
        0 <= k <= t.len(),
    ensures
        digits_value(t.take(k)) <= digits_value(t),
    decreases t.len(),
{
    if k < t.len() {
        let p = t.drop_last();
        assert(all_digits(p)) by {
            assert forall|j: int| 0 <= j < p.len() implies spec_is_digit(#[trigger] p[j]) by {
                assert(p[j] == t[j]);
            }
        }
        lemma_digits_value_grows(p, k);
        assert(p.take(k) =~= t.take(k));
        lemma_digits_value_nonneg(p);
        assert(spec_is_digit(t[t.len() - 1]));
    } else {
        assert(t.take(k) =~= t);
    }
}

/// Parses an unsigned run of digits starting at `start`, as a magnitude up to `limit`.
fn parse_magnitude(t: &Vec<char>, start: usize, limit: i128) -> (r: Option<i128>)
    requires
        start < t.len(),
        0 <= limit <= 0x8000_0000_0000_0000,
    ensures
        ({
            let rest = t@.subrange(start as int, t@.len() as int);
            match r {
                Some(v) => all_digits(rest) && v == digits_value(rest) && 0 <= v <= limit,
                None => !(all_digits(rest) && digits_value(rest) <= limit),
            }
        }),
{
    let ghost rest = t@.subrange(start as int, t@.len() as int);
    let mut value: i128 = 0;
    let mut k: usize = start;
    while k < t.len()
        invariant
            start <= k <= t.len(),
            rest == t@.subrange(start as int, t@.len() as int),
            0 <= limit <= 0x8000_0000_0000_0000,
            all_digits(rest.take(k - start)),
            value == digits_value(rest.take(k - start)),
            0 <= value <= limit,
        decreases t.len() - k,
    {
        let c = t[k];
        if !is_digit(c) {
            proof {
                assert(rest[k - start] == c);
            }
            return None;
        }
        let ghost before = rest.take(k - start);
        let next: i128 = value * 10 + (c as i128 - '0' as i128);
        proof {
            assert(rest.take(k - start + 1).drop_last() =~= before);
            assert(rest.take(k - start + 1).last() == c);
            assert(all_digits(rest.take(k - start + 1))) by {
                assert forall|j: int| 0 <= j < k - start + 1 implies spec_is_digit(
                    #[trigger] rest.take(k - start + 1)[j],
                ) by {
                    if j < k - start {
                        assert(rest.take(k - start + 1)[j] == before[j]);
                    }
                }
            }
        }
        if next > limit {
            proof {
                if all_digits(rest) {
                    lemma_digits_value_grows(rest, k - start + 1);
                }
            }
            return None;
        }
        value = next;
        k = k + 1;
    }
    proof {
        assert(rest.take(k - start) =~= rest);
    }
    Some(value)
}

/// Parses a decimal integer literal the way `i64::from_str_radix(_, 10)` does.
pub fn parse_i64(t: &Vec<char>) -> (r: Option<i64>)
    ensures
        match r {
            Some(v) => spec_parse_i64(t@) == Some(v as int),
            None => spec_parse_i64(t@) is None,
        },
{
    if t.len() == 0 {
        return None;
    }
    if t[0] == '-' || t[0] == '+' {
        if t.len() == 1 {
            return None;
        }
        proof {
            assert(t@.drop_first() =~= t@.subrange(1, t@.len() as int));
        }
        if t[0] == '-' {
            match parse_magnitude(t, 1, 0x8000_0000_0000_0000) {
                Some(m) => Some((-m) as i64),
                None => None,
            }
        } else {
            match parse_magnitude(t, 1, 0x7fff_ffff_ffff_ffff) {
                Some(m) => Some(m as i64),
                None => None,
            }
        }
    } else {
        proof {
            assert(t@ =~= t@.subrange(0, t@.len() as int));
        }
        match parse_magnitude(t, 0, 0x7fff_ffff_ffff_ffff) {
            Some(m) => Some(m as i64),
            None => None,
        }
    }
}

} // verus!

verus! {

/// The characters of `cs[from..to]`.
pub open spec fn chars_of(cs: Seq<LocatedChar>, from: int, to: int) -> Seq<char> {
    cs.subrange(from, to).map_values(|c: LocatedChar| c.ch)
}

/// Where the run of identifier characters that starts at `i` ends.
pub open spec fn id_end(cs: Seq<LocatedChar>, i: int) -> int
    decreases cs.len() - i,
{
    if i < 0 || i >= cs.len() || !spec_is_id_char(cs[i].ch) {
        i
    } else {
        id_end(cs, i + 1)
    }
}

/// Where an integer literal that starts at `i` ends: digits, and one minus sign
/// at most, in any place.
pub open spec fn int_end(cs: Seq<LocatedChar>, i: int, minus_found: bool) -> int
    decreases cs.len() - i,
{
    if i < 0 || i >= cs.len() {
        i
    } else if spec_is_digit(cs[i].ch) {
        int_end(cs, i + 1, minus_found)
    } else if !minus_found && cs[i].ch == '-' {
        int_end(cs, i + 1, true)
    } else {
        i
    }
}

/// The index of the quote that closes a string literal, searching from `k`
/// with `last` the character before `k`; the length when there is none.
/// A quote right after a backslash does not close.
pub open spec fn quote_close(cs: Seq<LocatedChar>, k: int, last: char) -> int
    decreases cs.len() - k,
{
    if k < 0 || k >= cs.len() {
        cs.len() as int
    } else if cs[k].ch == '"' && last != '\\' {
        k
    } else {
        quote_close(cs, k + 1, cs[k].ch)
    }
}

/// The end of a run of slashes starting at `k`.
pub open spec fn slashes_end(cs: Seq<LocatedChar>, k: int) -> int
    decreases cs.len() - k,
{
    if k < 0 || k >= cs.len() || cs[k].ch != '/' {
        k
    } else {
        slashes_end(cs, k + 1)
    }
}

/// The index of the next newline from `k` on; the length when there is none.
pub open spec fn line_end(cs: Seq<LocatedChar>, k: int) -> int
    decreases cs.len() - k,
{
    if k < 0 || k >= cs.len() || cs[k].ch == '\n' {
        k
    } else {
        line_end(cs, k + 1)
    }
}

/// The lexem of a single punctuation character.
pub open spec fn punctuation(c: char) -> Option<LexemV> {
    if c == '=' {
        Some(LexemV::Equal)
    } else if c == ';' {
        Some(LexemV::SemiColon)
    } else if c == '.' {
        Some(LexemV::Dot)
    } else if c == '{' {
        Some(LexemV::OpenCurly)
    } else if c == '}' {
        Some(LexemV::CloseCurly)
    } else if c == '[' {
        Some(LexemV::OpenBracket)
    } else if c == ']' {
        Some(LexemV::CloseBracket)
    } else {
        None
    }
}

/// The identifier that starts at `i`.
pub open spec fn id_token(cs: Seq<LocatedChar>, i: int) -> LocatedLexemV {
    let e = id_end(cs, i);
    LocatedLexemV {
        lexem: LexemV::Id(chars_of(cs, i, e)),
        range: SourceRange { start: cs[i].position, end: cs[e - 1].position },
    }
}

/// The integer literal that starts at `i`, or the error its text gives.
pub open spec fn int_token(cs: Seq<LocatedChar>, i: int, file_path: Seq<char>) -> Result<
    LocatedLexemV,
    ProtoErrorV,
> {
    let e = int_end(cs, i, false);
    let text = chars_of(cs, i, e);
    let start = cs[i].position;
    let end = cs[e - 1].position;
    match spec_parse_i64(text) {
        Some(v) => Ok(
            LocatedLexemV { lexem: LexemV::IntLiteral(v), range: SourceRange { start, end } },
        ),
        None => Err(
            ProtoErrorV::InvalidIntLiteral {
                literal: text,
                file_path,
                line: start.line as nat,
                start_column: start.column as nat,
                end_column: end.column as nat,
            },
        ),
    }
}

/// The index after the string literal whose opening quote is at `i`.
pub open spec fn string_next(cs: Seq<LocatedChar>, i: int) -> int {
    let close = quote_close(cs, i + 1, '"');
    if close < cs.len() {
        close + 1
    } else {
        cs.len() as int
    }
}

/// The string literal whose opening quote is at `i`.
pub open spec fn string_token(cs: Seq<LocatedChar>, i: int) -> LocatedLexemV {
    let close = quote_close(cs, i + 1, '"');
    let end = if close < cs.len() {
        cs[close].position
    } else if close > i + 1 {
        cs[close - 1].position
    } else {
        cs[i].position
    };
    LocatedLexemV {
        lexem: LexemV::StringLiteral(chars_of(cs, i + 1, close)),
        range: SourceRange { start: cs[i].position, end },
    }
}

/// What the lexer makes of the character at `i`: a lexem, nothing (white
/// space, comments) or an error; and where it goes on.
pub open spec fn next_token(cs: Seq<LocatedChar>, i: int, file_path: Seq<char>) -> (
    Result<Option<LocatedLexemV>, ProtoErrorV>,
    int,
) {
    let c = cs[i].ch;
    let p = cs[i].position;
    if spec_is_whitespace(c) {
        (Ok(None), i + 1)
    } else if spec_is_digit(c) || c == '-' {
        match int_token(cs, i, file_path) {
            Ok(t) => (Ok(Some(t)), int_end(cs, i, false)),
            Err(e) => (Err(e), int_end(cs, i, false)),
        }
    } else if spec_is_id_char(c) {
        (Ok(Some(id_token(cs, i))), id_end(cs, i))
    } else if c == '"' {
        (Ok(Some(string_token(cs, i))), string_next(cs, i))
    } else if c == '/' {
        (Ok(None), line_end(cs, slashes_end(cs, i)))
    } else {
        match punctuation(c) {
            Some(l) => (Ok(Some(LocatedLexemV { lexem: l, range: SourceRange { start: p, end: p } })), i + 1),
            None => (
                Err(
                    ProtoErrorV::UnknownCharacter {
                        file_path,
                        line: p.line as nat,
                        column: p.column as nat,
                        character: c,
                    },
                ),
                i + 1,
            ),
        }
    }
}

/// The lexems of `cs[i..]`, or the first error.
pub open spec fn lex_from(cs: Seq<LocatedChar>, i: int, file_path: Seq<char>) -> Result<
    Seq<LocatedLexemV>,
    ProtoErrorV,
>
    decreases cs.len() - i,
{
    if i < 0 || i >= cs.len() {
        Ok(Seq::empty())
    } else {
        let (t, n) = next_token(cs, i, file_path);
        if n <= i || n > cs.len() {
            Ok(Seq::empty())
        } else {
            match t {
                Err(e) => Err(e),
                Ok(None) => lex_from(cs, n, file_path),
                Ok(Some(l)) => match lex_from(cs, n, file_path) {
                    Ok(rest) => Ok(seq![l] + rest),
                    Err(e) => Err(e),
                },
            }
        }
    }
}

/// The lexems of a file's text followed by `EOF` at the last character, or
/// the first error.
pub open spec fn lexems_of(content: Seq<char>, file_path: Seq<char>) -> Result<
    Seq<LocatedLexemV>,
    ProtoErrorV,
> {
    let cs = located_chars(content);
    match lex_from(cs, 0, file_path) {
        Ok(ls) => Ok(
            ls.push(
                LocatedLexemV {
                    lexem: LexemV::EOF,
                    range: SourceRange { start: cs.last().position, end: cs.last().position },
                },
            ),
        ),
        Err(e) => Err(e),
    }
}

pub open spec fn lexem_views(v: Seq<LocatedLexem>) -> Seq<LocatedLexemV> {
    v.map_values(|l: LocatedLexem| l@)
}

} // verus!

verus! {

proof fn lemma_chars_of_push(cs: Seq<LocatedChar>, from: int, to: int)
    requires
        0 <= from <= to < cs.len(),
    ensures
        chars_of(cs, from, to + 1) == chars_of(cs, from, to).push(cs[to].ch),
{
    assert(chars_of(cs, from, to + 1) =~= chars_of(cs, from, to).push(cs[to].ch));
}

/// Reads the identifier that starts at `*located_char_index`.
pub fn try_read_id(located_chars: &Vec<LocatedChar>, located_char_index: &mut usize) -> (r: Result<
    LocatedLexem,
    ProtoError,
>)
    requires
        *old(located_char_index) < located_chars.len(),
        spec_is_id_char(located_chars@[*old(located_char_index) as int].ch),
    ensures
        *final(located_char_index) == id_end(located_chars@, *old(located_char_index) as int),
        *old(located_char_index) < *final(located_char_index) <= located_chars.len(),
        r matches Ok(l) && l@ == id_token(located_chars@, *old(located_char_index) as int),
{
    let ghost cs = located_chars@;
    let i = *located_char_index;
    let mut text = String::new();
    let start = located_chars[i].position;
    let mut end = start;
    let mut k = i;
    while k < located_chars.len() && is_id_char(located_chars[k].ch)
        invariant
            cs == located_chars@,
            i < located_chars.len(),
            spec_is_id_char(cs[i as int].ch),
            i <= k <= located_chars.len(),
            id_end(cs, i as int) == id_end(cs, k as int),
            text@ == chars_of(cs, i as int, k as int),
            k > i ==> end == cs[k - 1].position,
        decreases located_chars.len() - k,
    {
        end = located_chars[k].position;
        push_char(&mut text, located_chars[k].ch);
        proof {
            lemma_chars_of_push(cs, i as int, k as int);
        }
        k = k + 1;
    }
    *located_char_index = k;
    Ok(LocatedLexem { lexem: Lexem::Id(text), range: SourceRange { start, end } })
}

/// Reads the integer literal that starts at `*located_char_index`.
pub fn try_read_int(
    file_path: &str,
    located_chars: &Vec<LocatedChar>,
    located_char_index: &mut usize,
) -> (r: Result<LocatedLexem, ProtoError>)
    requires
        *old(located_char_index) < located_chars.len(),
        spec_is_digit(located_chars@[*old(located_char_index) as int].ch)
            || located_chars@[*old(located_char_index) as int].ch == '-',
    ensures
        *final(located_char_index) == int_end(located_chars@, *old(located_char_index) as int, false),
        *old(located_char_index) < *final(located_char_index) <= located_chars.len(),
        match r {
            Ok(l) => int_token(located_chars@, *old(located_char_index) as int, file_path@) == Ok::<
                LocatedLexemV,
                ProtoErrorV,
            >(l@),
            Err(e) => int_token(located_chars@, *old(located_char_index) as int, file_path@)
                == Err::<LocatedLexemV, ProtoErrorV>(e@),
        },
{
    let ghost cs = located_chars@;
    let i = *located_char_index;
    let mut digits = String::new();
    let mut digit_chars: Vec<char> = Vec::new();
    let start = located_chars[i].position;
    let mut end = start;
    let mut k = i;
    let mut minus_found = false;
    loop
        invariant
            cs == located_chars@,
            *located_char_index == i,
            i < located_chars.len(),
            spec_is_digit(cs[i as int].ch) || cs[i as int].ch == '-',
            i <= k <= located_chars.len(),
            int_end(cs, i as int, false) == int_end(cs, k as int, minus_found),
            k == i ==> !minus_found,
            digits@ == chars_of(cs, i as int, k as int),
            digit_chars@ == digits@,
            k > i ==> end == cs[k - 1].position,
            start == cs[i as int].position,
        ensures
            *located_char_index == i,
            i < k <= located_chars.len(),
            int_end(cs, i as int, false) == k,
            digits@ == chars_of(cs, i as int, k as int),
            digit_chars@ == digits@,
            end == cs[k - 1].position,
            start == cs[i as int].position,
        decreases located_chars.len() - k,
    {
        if k >= located_chars.len() {
            break;
        }
        let c = located_chars[k].ch;
        if is_digit(c) {
            end = located_chars[k].position;
            push_char(&mut digits, c);
            digit_chars.push(c);
            proof {
                lemma_chars_of_push(cs, i as int, k as int);
            }
            k = k + 1;
            continue;
        }
        if !minus_found && c == '-' {
            end = located_chars[k].position;
            push_char(&mut digits, c);
            digit_chars.push(c);
            proof {
                lemma_chars_of_push(cs, i as int, k as int);
            }
            k = k + 1;
            minus_found = true;
            continue;
        }
        break;
    }
    *located_char_index = k;
    match parse_i64(&digit_chars) {
        Some(value) => Ok(
            LocatedLexem { lexem: Lexem::IntLiteral(value), range: SourceRange { start, end } },
        ),
        None => Err(
            ProtoError::InvalidIntLiteral {
                literal: digits,
                file_path: file_path.to_owned(),
                line: start.line,
                start_column: start.column,
                end_column: end.column,
            },
        ),
    }
}

/// Skips a comment: the slashes that open it and the rest of the line, up to
/// the newline.
pub fn try_read_comment(located_chars: &Vec<LocatedChar>, located_char_index: &mut usize) -> (r:
    Result<(), ProtoError>)
    requires
        *old(located_char_index) < located_chars.len(),
        located_chars@[*old(located_char_index) as int].ch == '/',
    ensures
        *final(located_char_index) == line_end(
            located_chars@,
            slashes_end(located_chars@, *old(located_char_index) as int),
        ),
        *old(located_char_index) < *final(located_char_index) <= located_chars.len(),
        r is Ok,
{
    let ghost cs = located_chars@;
    let ghost i = *located_char_index as int;
    while *located_char_index < located_chars.len() && located_chars[*located_char_index].ch == '/'
        invariant
            cs == located_chars@,
            i < cs.len(),
            cs[i].ch == '/',
            i <= *located_char_index <= cs.len(),
            slashes_end(cs, i) == slashes_end(cs, *located_char_index as int),
            *located_char_index == i ==> cs[i].ch == '/',
        decreases cs.len() - *located_char_index,
    {
        *located_char_index = *located_char_index + 1;
    }
    assert(*located_char_index > i);
    let ghost s = *located_char_index as int;
    while *located_char_index < located_chars.len() && located_chars[*located_char_index].ch != '\n'
        invariant
            cs == located_chars@,
            i < s <= *located_char_index <= cs.len(),
            s == slashes_end(cs, i),
            line_end(cs, s) == line_end(cs, *located_char_index as int),
        decreases cs.len() - *located_char_index,
    {
        *located_char_index = *located_char_index + 1;
    }
    Ok(())
}

/// Reads the string literal whose opening quote is at `*located_char_index`.
/// The text is kept as written, backslashes included.
pub fn try_read_string_literal(
    located_chars: &Vec<LocatedChar>,
    located_char_index: &mut usize,
) -> (r: Result<LocatedLexem, ProtoError>)
    requires
        *old(located_char_index) < located_chars.len(),
        located_chars@[*old(located_char_index) as int].ch == '"',
    ensures
        *final(located_char_index) == string_next(located_chars@, *old(located_char_index) as int),
        *old(located_char_index) < *final(located_char_index) <= located_chars.len(),
        r matches Ok(l) && l@ == string_token(located_chars@, *old(located_char_index) as int),
{
    let ghost cs = located_chars@;
    let i = *located_char_index;
    let mut string_literal = String::new();
    let mut last_char = located_chars[i].ch;
    let start = located_chars[i].position;
    let mut end = start;
    let mut k = i + 1;
    loop
        invariant_except_break
            cs == located_chars@,
            *located_char_index == i,
            i < located_chars.len(),
            cs[i as int].ch == '"',
            i + 1 <= k <= located_chars.len(),
            quote_close(cs, i + 1, '"') == quote_close(cs, k as int, last_char),
            k == i + 1 ==> last_char == '"',
            string_literal@ == chars_of(cs, i + 1, k as int),
            k > i + 1 ==> end == cs[k - 1].position,
            k == i + 1 ==> end == start,
            start == cs[i as int].position,
        ensures
            *located_char_index == i,
            string_literal@ == chars_of(cs, i + 1, quote_close(cs, i + 1, '"')),
            k == string_next(cs, i as int),
            end == string_token(cs, i as int).range.end,
            start == cs[i as int].position,
            i < k <= cs.len(),
        decreases located_chars.len() - k,
    {
        if k >= located_chars.len() {
            break;
        }
        let c = located_chars[k].ch;
        if c == '"' && last_char != '\\' {
            end = located_chars[k].position;
            k = k + 1;
            break;
        }
        end = located_chars[k].position;
        push_char(&mut string_literal, c);
        proof {
            lemma_chars_of_push(cs, i + 1, k as int);
        }
        k = k + 1;
        last_char = c;
    }
    *located_char_index = k;
    Ok(LocatedLexem { lexem: Lexem::StringLiteral(string_literal), range: SourceRange { start, end } })
}

} // verus!

verus! {

/// The results collected so far put in front of what the rest yields.
pub open spec fn prepend_all(done: Seq<LocatedLexemV>, rest: Result<Seq<LocatedLexemV>, ProtoErrorV>) -> Result<
    Seq<LocatedLexemV>,
    ProtoErrorV,
> {
    match rest {
        Ok(r) => Ok(done + r),
        Err(e) => Err(e),
    }
}

/// Splits the text of the file at `file_path` into lexems, ending with `EOF`
/// at the last character.
pub fn read_lexems(file_path: &str, content: &str) -> (r: Result<Vec<LocatedLexem>, ProtoError>)
    requires
        content@.len() < usize::MAX,
        located_chars(content@).len() > 0,
    ensures
        match r {
            Ok(v) => lexems_of(content@, file_path@) == Ok::<Seq<LocatedLexemV>, ProtoErrorV>(
                lexem_views(v@),
            ),
            Err(e) => lexems_of(content@, file_path@) == Err::<Seq<LocatedLexemV>, ProtoErrorV>(
                e@,
            ),
        },
{
    let chars = read_chars(content);
    let ghost cs = chars@;
    let ghost fp = file_path@;
    let mut current_char_index: usize = 0;
    let mut located_lexems: Vec<LocatedLexem> = Vec::new();
    while current_char_index < chars.len()
        invariant
            cs == chars@,
            cs == located_chars(content@),
            fp == file_path@,
            cs.len() > 0,
            current_char_index <= cs.len(),
            lex_from(cs, 0, fp) == prepend_all(
                lexem_views(located_lexems@),
                lex_from(cs, current_char_index as int, fp),
            ),
        decreases cs.len() - current_char_index,
    {
        let ghost i = current_char_index as int;
        let ghost done = lexem_views(located_lexems@);
        let located_char = chars[current_char_index];
        let c = located_char.ch;
        let position = located_char.position;
        if is_whitespace(c) {
            current_char_index += 1;
            continue;
        }
        if is_digit(c) || c == '-' {
            let located_int_lexem = try_read_int(file_path, &chars, &mut current_char_index);
            match located_int_lexem {
                Ok(l) => {
                    located_lexems.push(l);
                    proof {
                        assert(lexem_views(located_lexems@) =~= done.push(l@));
                        match lex_from(cs, current_char_index as int, fp) {
                            Ok(rest) => {
                                assert(done + (seq![l@] + rest) =~= done.push(l@) + rest);
                            },
                            Err(_) => {},
                        }
                    }
                    continue;
                },
                Err(e) => {
                    proof {
                        assert(lex_from(cs, i, fp) == Err::<Seq<LocatedLexemV>, ProtoErrorV>(e@));
                    }
                    return Err(e);
                },
            }
        }
        if is_id_char(c) {
            let located_id_lexem = try_read_id(&chars, &mut current_char_index);
            match located_id_lexem {
                Ok(l) => {
                    located_lexems.push(l);
                    proof {
                        assert(lexem_views(located_lexems@) =~= done.push(l@));
                        match lex_from(cs, current_char_index as int, fp) {
                            Ok(rest) => {
                                assert(done + (seq![l@] + rest) =~= done.push(l@) + rest);
                            },
                            Err(_) => {},
                        }
                    }
                    continue;
                },
                Err(e) => {
                    return Err(e);
                },
            }
        }
        if c == '"' {
            let string_lexem = try_read_string_literal(&chars, &mut current_char_index);
            match string_lexem {
                Ok(l) => {
                    located_lexems.push(l);
                    proof {
                        assert(lexem_views(located_lexems@) =~= done.push(l@));
                        match lex_from(cs, current_char_index as int, fp) {
                            Ok(rest) => {
                                assert(done + (seq![l@] + rest) =~= done.push(l@) + rest);
                            },
                            Err(_) => {},
                        }
                    }
                    continue;
                },
                Err(e) => {
                    return Err(e);
                },
            }
        }
        if c == '/' {
            let comment = try_read_comment(&chars, &mut current_char_index);
            match comment {
                Ok(()) => {
                    continue;
                },
                Err(e) => {
                    return Err(e);
                },
            }
        }
        current_char_index += 1;
        let single_char_lexem = if c == '=' {
            Some(Lexem::Equal)
        } else if c == ';' {
            Some(Lexem::SemiColon)
        } else if c == '.' {
            Some(Lexem::Dot)
        } else if c == '{' {
            Some(Lexem::OpenCurly)
        } else if c == '}' {
            Some(Lexem::CloseCurly)
        } else if c == '[' {
            Some(Lexem::OpenBracket)
        } else if c == ']' {
            Some(Lexem::CloseBracket)
        } else {
            None
        };
        if let Some(lexem) = single_char_lexem {
            let l = LocatedLexem { lexem, range: SourceRange { start: position, end: position } };
            proof {
                assert(punctuation(c) == Some(l@.lexem));
            }
            located_lexems.push(l);
            proof {
                assert(lexem_views(located_lexems@) =~= done.push(l@));
                match lex_from(cs, current_char_index as int, fp) {
                    Ok(rest) => {
                        assert(done + (seq![l@] + rest) =~= done.push(l@) + rest);
                    },
                    Err(_) => {},
                }
            }
            continue;
        }
        let err = ProtoError::UnknownCharacter {
            file_path: file_path.to_owned(),
            line: position.line,
            column: position.column,
            character: c,
        };
        proof {
            assert(punctuation(c) is None);
            assert(lex_from(cs, i, fp) == Err::<Seq<LocatedLexemV>, ProtoErrorV>(err@));
        }
        return Err(err);
    }
    let last_char_position = chars[chars.len() - 1].position;
    let eof = LocatedLexem {
        lexem: Lexem::EOF,
        range: SourceRange { start: last_char_position, end: last_char_position },
    };
    let ghost done = lexem_views(located_lexems@);
    located_lexems.push(eof);
    proof {
        assert(lexem_views(located_lexems@) =~= done.push(eof@));
        assert(done + Seq::<LocatedLexemV>::empty() =~= done);
    }
    Ok(located_lexems)
}

} // verus!
