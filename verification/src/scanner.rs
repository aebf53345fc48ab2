//! The scanner: turns a source string into the ordered token sequence
//! that the parser consumes.
//!
//! The mathematical model is `scan_spec`, a recursive function over the
//! source's character sequence: at each position it classifies one maximal
//! run of characters into a token, silently drops whitespace and comments,
//! or fails the whole scan. `Scanner::scan_tokens` is proved to return
//! exactly what `scan_spec` says.

use vstd::prelude::*;

use crate::error::{Error, ErrorV};
use crate::token::{Literal, LiteralV, Token, TokenType, TokenV};

verus! {

/// An ASCII decimal digit.
pub open spec fn is_digit_char(c: char) -> bool {
    ('0' as u32) <= (c as u32) && (c as u32) <= ('9' as u32)
}

/// Horizontal whitespace that the scanner drops without a token.
pub open spec fn is_blank_char(c: char) -> bool {
    c == ' ' || c == '\r' || c == '\t'
}

/// What `char::is_alphanumeric` returns: whether the character is a
/// Unicode letter or digit. A function of the character alone.
pub uninterp spec fn is_word_char(c: char) -> bool;

/// Relies on char::is_alphanumeric: whether the character is a Unicode
/// letter or digit, a function of the character alone.
#[verifier::external_body]
fn word_char(c: char) -> (r: bool)
    ensures
        r == is_word_char(c),
{
    c.is_alphanumeric()
}

/// The token kind of a character that forms a one-character punctuation
/// token on its own.
pub open spec fn single_kind(c: char) -> Option<TokenType> {
    if c == '(' {
        Some(TokenType::LeftParen)
    } else if c == ')' {
        Some(TokenType::RightParen)
    } else if c == '{' {
        Some(TokenType::LeftBrace)
    } else if c == '}' {
        Some(TokenType::RightBrace)
    } else if c == ',' {
        Some(TokenType::Comma)
    } else if c == '.' {
        Some(TokenType::Dot)
    } else if c == '-' {
        Some(TokenType::Minus)
    } else if c == '+' {
        Some(TokenType::Plus)
    } else if c == ';' {
        Some(TokenType::Semicolon)
    } else if c == '*' {
        Some(TokenType::Star)
    } else {
        None
    }
}

/// For `!`, `=`, `<`, `>`: the one-character kind and the two-character
/// kind chosen when a `=` follows.
pub open spec fn pair_kinds(c: char) -> Option<(TokenType, TokenType)> {
    if c == '!' {
        Some((TokenType::Bang, TokenType::BangEqual))
    } else if c == '=' {
        Some((TokenType::Equal, TokenType::EqualEqual))
    } else if c == '<' {
        Some((TokenType::Less, TokenType::LessEqual))
    } else if c == '>' {
        Some((TokenType::Greater, TokenType::GreaterEqual))
    } else {
        None
    }
}

/// The keyword kind reserved for `text`, if any.
pub open spec fn keyword_kind_spec(text: Seq<char>) -> Option<TokenType> {
    if text == "and"@ {
        Some(TokenType::And)
    } else if text == "class"@ {
        Some(TokenType::Class)
    } else if text == "else"@ {
        Some(TokenType::Else)
    } else if text == "false"@ {
        Some(TokenType::False)
    } else if text == "for"@ {
        Some(TokenType::For)
    } else if text == "fun"@ {
        Some(TokenType::Fun)
    } else if text == "if"@ {
        Some(TokenType::If)
    } else if text == "nil"@ {
        Some(TokenType::Nil)
    } else if text == "or"@ {
        Some(TokenType::Or)
    } else if text == "print"@ {
        Some(TokenType::Print)
    } else if text == "return"@ {
        Some(TokenType::Return)
    } else if text == "super"@ {
        Some(TokenType::Super)
    } else if text == "this"@ {
        Some(TokenType::This)
    } else if text == "true"@ {
        Some(TokenType::True)
    } else if text == "var"@ {
        Some(TokenType::Var)
    } else if text == "while"@ {
        Some(TokenType::While)
    } else {
        None
    }
}

/// First position `j >= i` with `src[j] == c`, or `src.len()` if none.
pub open spec fn find_char(src: Seq<char>, i: int, c: char) -> int
    decreases src.len() - i,
{
    if 0 <= i < src.len() {
        if src[i] == c {
            i
        } else {
            find_char(src, i + 1, c)
        }
    } else {
        src.len() as int
    }
}

/// First position `j >= i` where a (non-nesting) block comment closes:
/// `src[j] == '*'` and `src[j + 1] == '/'`; `src.len()` if none.
pub open spec fn find_comment_close(src: Seq<char>, i: int) -> int
    decreases src.len() - i,
{
    if 0 <= i < src.len() {
        if src[i] == '*' && i + 1 < src.len() && src[i + 1] == '/' {
            i
        } else {
            find_comment_close(src, i + 1)
        }
    } else {
        src.len() as int
    }
}

/// End of the maximal run of ASCII digits starting at `i`.
pub open spec fn digit_run_end(src: Seq<char>, i: int) -> int
    decreases src.len() - i,
{
    if 0 <= i < src.len() && is_digit_char(src[i]) {
        digit_run_end(src, i + 1)
    } else {
        i
    }
}

/// End of the maximal run of alphanumeric characters starting at `i`.
pub open spec fn word_run_end(src: Seq<char>, i: int) -> int
    decreases src.len() - i,
{
    if 0 <= i < src.len() && is_word_char(src[i]) {
        word_run_end(src, i + 1)
    } else {
        i
    }
}

/// How many line breaks `src` holds in positions `a <= k < b`.
pub open spec fn count_nl(src: Seq<char>, a: int, b: int) -> int
    decreases b - a,
{
    if a >= b {
        0
    } else {
        count_nl(src, a, b - 1) + if src[b - 1] == '\n' {
            1int
        } else {
            0int
        }
    }
}

/// The end-of-input marker: empty lexeme, no literal, the line the scan
/// ended on.
pub open spec fn eof_token(line: int) -> TokenV {
    TokenV { kind: TokenType::Eof, lexeme: Seq::empty(), literal: None, line: line as nat }
}

/// A token whose lexeme is the one character `c`.
pub open spec fn tok1(kind: TokenType, c: char, line: int) -> TokenV {
    TokenV { kind, lexeme: seq![c], literal: None, line: line as nat }
}

/// A token whose lexeme is the two characters `c1 c2`.
pub open spec fn tok2(kind: TokenType, c1: char, c2: char, line: int) -> TokenV {
    TokenV { kind, lexeme: seq![c1, c2], literal: None, line: line as nat }
}

/// What one step of scanning does at position `pos` on line `line`.
pub ghost enum ScanStep {
    /// A token is emitted; scanning resumes at the given position and line.
    Tok(TokenV, int, int),
    /// Whitespace or a comment is dropped; scanning resumes there.
    Skip(int, int),
    /// The whole scan fails.
    Fail(ErrorV),
}

/// One scanning step: classifies the maximal run of characters beginning
/// at `pos` (with `0 <= pos < src.len()`), following the fixed order of
/// rules: single-character punctuation; `!` `=` `<` `>` with one-character
/// lookahead for `=`; `/` starting a line comment, a block comment or the
/// `Slash` token; whitespace; line breaks; string literals; numbers;
/// identifiers and keywords; everything else fails the scan.
pub open spec fn scan_step(src: Seq<char>, pos: int, line: int) -> ScanStep {
    let c = src[pos];
    if single_kind(c) is Some {
        ScanStep::Tok(tok1(single_kind(c)->0, c, line), pos + 1, line)
    } else if pair_kinds(c) is Some {
        let k1 = (pair_kinds(c)->0).0;
        let k2 = (pair_kinds(c)->0).1;
        if pos + 1 < src.len() && src[pos + 1] == '=' {
            ScanStep::Tok(tok2(k2, c, '=', line), pos + 2, line)
        } else {
            ScanStep::Tok(tok1(k1, c, line), pos + 1, line)
        }
    } else if c == '/' {
        if pos + 1 < src.len() && src[pos + 1] == '/' {
            ScanStep::Skip(find_char(src, pos + 2, '\n'), line)
        } else if pos + 1 < src.len() && src[pos + 1] == '*' {
            let j = find_comment_close(src, pos + 2);
            if j < src.len() {
                ScanStep::Skip(j + 2, line + count_nl(src, pos + 2, j))
            } else {
                ScanStep::Skip(src.len() as int, line + count_nl(src, pos + 2, src.len() as int))
            }
        } else {
            ScanStep::Tok(tok1(TokenType::Slash, c, line), pos + 1, line)
        }
    } else if is_blank_char(c) {
        ScanStep::Skip(pos + 1, line)
    } else if c == '\n' {
        ScanStep::Skip(pos + 1, line + 1)
    } else if c == '"' {
        let j = find_char(src, pos + 1, '"');
        if j >= src.len() {
            ScanStep::Fail(
                ErrorV::UnterminatedString((line + count_nl(src, pos + 1, src.len() as int)) as nat),
            )
        } else {
            let l2 = line + count_nl(src, pos + 1, j);
            ScanStep::Tok(
                TokenV {
                    kind: TokenType::Str,
                    lexeme: src.subrange(pos, j + 1),
                    literal: Some(LiteralV::Str(src.subrange(pos + 1, j))),
                    line: l2 as nat,
                },
                j + 1,
                l2,
            )
        }
    } else if is_digit_char(c) {
        let j = digit_run_end(src, pos + 1);
        let end = if j < src.len() && src[j] == '.' && j + 1 < src.len() && is_digit_char(
            src[j + 1],
        ) {
            digit_run_end(src, j + 1)
        } else {
            j
        };
        ScanStep::Tok(
            TokenV {
                kind: TokenType::Number,
                lexeme: src.subrange(pos, end),
                literal: Some(LiteralV::Number(src.subrange(pos, end))),
                line: line as nat,
            },
            end,
            line,
        )
    } else if is_word_char(c) {
        let j = word_run_end(src, pos + 1);
        let text = src.subrange(pos, j);
        ScanStep::Tok(
            TokenV {
                kind: match keyword_kind_spec(text) {
                    Some(kind) => kind,
                    None => TokenType::Identifier,
                },
                lexeme: text,
                literal: Some(LiteralV::Identifier(text)),
                line: line as nat,
            },
            j,
            line,
        )
    } else {
        ScanStep::Fail(ErrorV::UnexpectedCharacter(line as nat))
    }
}

/// Prepends already-scanned tokens to the outcome of scanning the rest;
/// an error swallows the prefix, as the scanner surfaces no partial list.
pub open spec fn compose(prefix: Seq<TokenV>, rest: Result<Seq<TokenV>, ErrorV>) -> Result<
    Seq<TokenV>,
    ErrorV,
> {
    match rest {
        Ok(ts) => Ok(prefix + ts),
        Err(e) => Err(e),
    }
}

/// The token sequence (or error) that scanning `src` from position `pos`
/// on line `line` produces: steps until the end of input, then one `Eof`
/// token on the final line.
pub open spec fn scan_spec(src: Seq<char>, pos: int, line: int) -> Result<Seq<TokenV>, ErrorV>
    decreases src.len() - pos,
    when 0 <= pos
    via scan_spec_dec
{
    if pos >= src.len() {
        Ok(seq![eof_token(line)])
    } else {
        match scan_step(src, pos, line) {
            ScanStep::Fail(e) => Err(e),
            ScanStep::Tok(t, p, l) => compose(seq![t], scan_spec(src, p, l)),
            ScanStep::Skip(p, l) => scan_spec(src, p, l),
        }
    }
}

#[via_fn]
proof fn scan_spec_dec(src: Seq<char>, pos: int, line: int) {
    if 0 <= pos < src.len() {
        lemma_scan_step_advances(src, pos, line);
    }
}

/// Bounds of `find_char`: the result lies between `i` and the end, points
/// at the first occurrence of `c`, and earlier positions hold no `c`.
pub proof fn lemma_find_char(src: Seq<char>, i: int, c: char)
    requires
        0 <= i <= src.len(),
    ensures
        i <= find_char(src, i, c) <= src.len(),
        find_char(src, i, c) < src.len() ==> src[find_char(src, i, c)] == c,
        forall|k: int| i <= k < find_char(src, i, c) ==> src[k] != c,
    decreases src.len() - i,
{
    if i < src.len() && src[i] != c {
        lemma_find_char(src, i + 1, c);
    }
}

/// Bounds of `find_comment_close`: the result is the first position at or
/// after `i` where `*/` begins, or the end of input.
pub proof fn lemma_find_comment_close(src: Seq<char>, i: int)
    requires
        0 <= i <= src.len(),
    ensures
        i <= find_comment_close(src, i) <= src.len(),
        find_comment_close(src, i) < src.len() ==> {
            let j = find_comment_close(src, i);
            src[j] == '*' && j + 1 < src.len() && src[j + 1] == '/'
        },
        forall|k: int|
            i <= k < find_comment_close(src, i) ==> !(#[trigger] src[k] == '*' && k + 1 < src.len()
                && src[k + 1] == '/'),
    decreases src.len() - i,
{
    if i < src.len() && !(src[i] == '*' && i + 1 < src.len() && src[i + 1] == '/') {
        lemma_find_comment_close(src, i + 1);
    }
}

/// Bounds of `digit_run_end`: everything from `i` up to the result is a
/// digit, and the result is the end of input or a non-digit.
pub proof fn lemma_digit_run_end(src: Seq<char>, i: int)
    requires
        0 <= i <= src.len(),
    ensures
        i <= digit_run_end(src, i) <= src.len(),
        forall|k: int| i <= k < digit_run_end(src, i) ==> is_digit_char(src[k]),
        digit_run_end(src, i) < src.len() ==> !is_digit_char(src[digit_run_end(src, i)]),
    decreases src.len() - i,
{
    if i < src.len() && is_digit_char(src[i]) {
        lemma_digit_run_end(src, i + 1);
    }
}

/// Bounds of `word_run_end`: everything from `i` up to the result is
/// alphanumeric, and the result is the end of input or a non-word
/// character.
pub proof fn lemma_word_run_end(src: Seq<char>, i: int)
    requires
        0 <= i <= src.len(),
    ensures
        i <= word_run_end(src, i) <= src.len(),
        forall|k: int| i <= k < word_run_end(src, i) ==> is_word_char(src[k]),
        word_run_end(src, i) < src.len() ==> !is_word_char(src[word_run_end(src, i)]),
    decreases src.len() - i,
{
    if i < src.len() && is_word_char(src[i]) {
        lemma_word_run_end(src, i + 1);
    }
}

/// Every position a scanning step resumes at lies strictly beyond `pos`
/// and within the input.
pub proof fn lemma_scan_step_advances(src: Seq<char>, pos: int, line: int)
    requires
        0 <= pos < src.len(),
    ensures
        match scan_step(src, pos, line) {
            ScanStep::Tok(_, p, _) => pos < p <= src.len(),
            ScanStep::Skip(p, _) => pos < p <= src.len(),
            ScanStep::Fail(_) => true,
        },
{
    let c = src[pos];
    if single_kind(c) is Some {
    } else if pair_kinds(c) is Some {
    } else if c == '/' {
        if pos + 1 < src.len() && src[pos + 1] == '/' {
            lemma_find_char(src, pos + 2, '\n');
        } else if pos + 1 < src.len() && src[pos + 1] == '*' {
            lemma_find_comment_close(src, pos + 2);
        }
    } else if is_blank_char(c) {
    } else if c == '\n' {
    } else if c == '"' {
        lemma_find_char(src, pos + 1, '"');
    } else if is_digit_char(c) {
        lemma_digit_run_end(src, pos + 1);
        let j = digit_run_end(src, pos + 1);
        if j < src.len() && src[j] == '.' && j + 1 < src.len() && is_digit_char(src[j + 1]) {
            lemma_digit_run_end(src, j + 1);
            assert(digit_run_end(src, j + 1) == digit_run_end(src, j + 2));
        }
    } else if is_word_char(c) {
        lemma_word_run_end(src, pos + 1);
    }
}

/// The views of a sequence of tokens.
pub open spec fn token_views(ts: Seq<Token>) -> Seq<TokenV> {
    ts.map_values(|t: Token| t@)
}

/// Prepending nothing changes no outcome.
proof fn lemma_compose_empty(rest: Result<Seq<TokenV>, ErrorV>)
    ensures
        compose(Seq::empty(), rest) == rest,
{
    match rest {
        Ok(ts) => {
            assert(Seq::<TokenV>::empty() + ts =~= ts);
        },
        Err(_) => {},
    }
}

/// After pushing one element, the old sequence is the prefix and the
/// pushed element is the remainder.
proof fn lemma_push_delta(a: Seq<TokenV>, t: TokenV)
    ensures
        a.push(t).subrange(0, a.len() as int) == a,
        a.push(t).skip(a.len() as int) == seq![t],
{
    assert(a.push(t).subrange(0, a.len() as int) =~= a);
    assert(a.push(t).skip(a.len() as int) =~= seq![t]);
}

/// Unfolds one emitting step of `scan_spec`.
proof fn lemma_step_tok(src: Seq<char>, pos: int, line: int, t: TokenV, p2: int, l2: int)
    requires
        0 <= pos < src.len(),
        scan_step(src, pos, line) == ScanStep::Tok(t, p2, l2),
    ensures
        scan_spec(src, pos, line) == compose(seq![t], scan_spec(src, p2, l2)),
{
    lemma_scan_step_advances(src, pos, line);
}

/// Unfolds one skipping step of `scan_spec`.
proof fn lemma_step_skip(src: Seq<char>, pos: int, line: int, p2: int, l2: int)
    requires
        0 <= pos < src.len(),
        scan_step(src, pos, line) == ScanStep::Skip(p2, l2),
    ensures
        scan_spec(src, pos, line) == scan_spec(src, p2, l2),
{
    lemma_scan_step_advances(src, pos, line);
}

/// Unfolds one failing step of `scan_spec`.
proof fn lemma_step_fail(src: Seq<char>, pos: int, line: int, e: ErrorV)
    requires
        0 <= pos < src.len(),
        scan_step(src, pos, line) == ScanStep::Fail(e),
    ensures
        scan_spec(src, pos, line) == Err::<Seq<TokenV>, ErrorV>(e),
{
}

/// The scanner. It owns the source string and walks it with three
/// cursors: `start` marks the beginning of the lexeme being scanned,
/// `current` the next unread position, and `line` the 1-based line
/// number, incremented on every line break encountered.
pub struct Scanner {
    pub source: String,
    pub tokens: Vec<Token>,
    pub start: usize,
    pub current: usize,
    pub line: usize,
}

impl Scanner {
    /// The scanner's cursors stay inside the source, and the line count
    /// can never outrun the characters read.
    pub open spec fn wf(&self) -> bool {
        &&& self.source@.len() < usize::MAX as nat
        &&& self.current as int <= self.source@.len()
        &&& self.start <= self.current
        &&& 1 <= self.line
        &&& self.line as int <= 1 + self.current as int
    }

    pub fn new(source: String) -> (r: Scanner)
        requires
            source@.len() < usize::MAX as nat,
        ensures
            r.wf(),
            r.source == source,
            r.tokens@ == Seq::<Token>::empty(),
            r.start == 0usize,
            r.current == 0usize,
            r.line == 1usize,
    {
        Scanner { source, tokens: Vec::new(), start: 0, current: 0, line: 1 }
    }

    /// How many characters the source holds.
    fn src_len(&self) -> (r: usize)
        requires
            self.wf(),
        ensures
            r as int == self.source@.len(),
    {
        self.source.as_str().unicode_len()
    }

    fn is_at_end(&self) -> (r: bool)
        requires
            self.wf(),
        ensures
            r == (self.current as int >= self.source@.len()),
    {
        self.current >= self.src_len()
    }

    /// Moves `current` one character forward.
    fn increment(&mut self)
        requires
            old(self).wf(),
            (old(self).current as int) < old(self).source@.len(),
        ensures
            final(self).wf(),
            final(self).source == old(self).source,
            final(self).tokens == old(self).tokens,
            final(self).start == old(self).start,
            final(self).line == old(self).line,
            final(self).current as int == old(self).current as int + 1,
    {
        self.current = self.current + 1;
    }

    /// Reads the character at `current` and moves past it; `None` once
    /// the end of input is reached.
    fn advance(&mut self) -> (r: Option<char>)
        requires
            old(self).wf(),
        ensures
            final(self).wf(),
            final(self).source == old(self).source,
            final(self).tokens == old(self).tokens,
            final(self).start == old(self).start,
            final(self).line == old(self).line,
            (old(self).current as int) < old(self).source@.len() ==> {
                &&& r == Some(old(self).source@[old(self).current as int])
                &&& final(self).current as int == old(self).current as int + 1
            },
            old(self).current as int >= old(self).source@.len() ==> {
                &&& r is None
                &&& final(self).current == old(self).current
            },
    {
        if self.current < self.src_len() {
            let c = self.source.as_str().get_char(self.current);
            self.increment();
            Some(c)
        } else {
            None
        }
    }

    /// The character at `current`, or the null character at the end of
    /// input; does not move the cursor.
    fn peek(&self) -> (r: char)
        requires
            self.wf(),
        ensures
            r == (if (self.current as int) < self.source@.len() {
                self.source@[self.current as int]
            } else {
                '\0'
            }),
    {
        if self.is_at_end() {
            return '\0';
        }
        self.source.as_str().get_char(self.current)
    }

    /// The character just after `current`, or the null character if there
    /// is none.
    fn peek_next(&self) -> (r: char)
        requires
            self.wf(),
        ensures
            r == (if self.current as int + 1 < self.source@.len() {
                self.source@[self.current as int + 1]
            } else {
                '\0'
            }),
    {
        if self.current + 1 >= self.src_len() {
            return '\0';
        }
        self.source.as_str().get_char(self.current + 1)
    }

    /// Consumes the character at `current` only if it equals `exp`.
    fn match_char(&mut self, exp: char) -> (r: bool)
        requires
            old(self).wf(),
        ensures
            final(self).wf(),
            final(self).source == old(self).source,
            final(self).tokens == old(self).tokens,
            final(self).start == old(self).start,
            final(self).line == old(self).line,
            r == ((old(self).current as int) < old(self).source@.len() && old(self).source@[old(
                self,
            ).current as int] == exp),
            final(self).current as int == old(self).current as int + (if r {
                1int
            } else {
                0int
            }),
    {
        if self.is_at_end() {
            return false;
        }
        if self.source.as_str().get_char(self.current) != exp {
            return false;
        }
        self.increment();
        true
    }

    /// Emits one token spanning `start..current`: the lexeme is that
    /// exact source substring, the line is the line the token ends on.
    fn add_token(&mut self, token: TokenType, literal: Option<Literal>)
        requires
            old(self).wf(),
        ensures
            final(self).wf(),
            final(self).source == old(self).source,
            final(self).start == old(self).start,
            final(self).current == old(self).current,
            final(self).line == old(self).line,
            token_views(final(self).tokens@) == token_views(old(self).tokens@).push(
                TokenV {
                    kind: token,
                    lexeme: old(self).source@.subrange(
                        old(self).start as int,
                        old(self).current as int,
                    ),
                    literal: match literal {
                        Some(l) => Some(l@),
                        None => None,
                    },
                    line: old(self).line as nat,
                },
            ),
    {
        let text: String = self.source.as_str().substring_char(self.start, self.current).to_owned();
        let t = Token::new(token, text, literal, self.line);
        self.tokens.push(t);
        proof {
            assert(token_views(self.tokens@) =~= token_views(old(self).tokens@).push(t@));
        }
    }

    /// Scans the body of a string literal; entered with the opening quote
    /// just consumed. Consumes through the closing quote, counting line
    /// breaks; reaching the end of input first fails the scan.
    fn string(&mut self) -> (r: Result<(), Error>)
        requires
            old(self).wf(),
            old(self).current as int == old(self).start as int + 1,
        ensures
            final(self).wf(),
            final(self).source == old(self).source,
            final(self).start == old(self).start,
            ({
                let src = old(self).source@;
                let j = find_char(src, old(self).current as int, '"');
                match r {
                    Ok(()) => {
                        &&& j < src.len()
                        &&& final(self).current as int == j + 1
                        &&& final(self).line as int == old(self).line as int + count_nl(
                            src,
                            old(self).current as int,
                            j,
                        )
                        &&& token_views(final(self).tokens@) == token_views(old(self).tokens@).push(
                            TokenV {
                                kind: TokenType::Str,
                                lexeme: src.subrange(old(self).start as int, j + 1),
                                literal: Some(
                                    LiteralV::Str(src.subrange(old(self).current as int, j)),
                                ),
                                line: final(self).line as nat,
                            },
                        )
                    },
                    Err(e) => {
                        &&& j == src.len()
                        &&& e@ == ErrorV::UnterminatedString(
                            (old(self).line as int + count_nl(
                                src,
                                old(self).current as int,
                                src.len() as int,
                            )) as nat,
                        )
                        &&& final(self).tokens == old(self).tokens
                    },
                }
            }),
    {
        let ghost src = old(self).source@;
        let ghost from = old(self).current as int;
        while !self.is_at_end() && self.peek() != '"'
            invariant
                self.wf(),
                self.source == old(self).source,
                self.source@ == src,
                self.tokens == old(self).tokens,
                self.start == old(self).start,
                from <= self.current as int <= src.len(),
                find_char(src, from, '"') == find_char(src, self.current as int, '"'),
                self.line as int == old(self).line as int + count_nl(src, from, self.current as int),
            decreases src.len() - self.current as int,
        {
            let c = self.peek();
            self.increment();
            if c == '\n' {
                self.line = self.line + 1;
            }
        }
        if self.is_at_end() {
            return Err(Error::UnterminatedString(self.line));
        }
        self.advance();
        let value: String = self.source.as_str().substring_char(
            self.start + 1,
            self.current - 1,
        ).to_owned();
        self.add_token(TokenType::Str, Some(Literal::Str(value)));
        Ok(())
    }

    /// Scans a number: a maximal digit run, optionally followed by `.`
    /// and another digit run; a trailing bare `.` is left unconsumed.
    /// Entered with the first digit just consumed.
    fn number(&mut self) -> (r: Result<(), Error>)
        requires
            old(self).wf(),
            old(self).current as int == old(self).start as int + 1,
        ensures
            final(self).wf(),
            final(self).source == old(self).source,
            final(self).start == old(self).start,
            final(self).line == old(self).line,
            r is Ok,
            ({
                let src = old(self).source@;
                let j = digit_run_end(src, old(self).current as int);
                let end = if j < src.len() && src[j] == '.' && j + 1 < src.len() && is_digit_char(
                    src[j + 1],
                ) {
                    digit_run_end(src, j + 1)
                } else {
                    j
                };
                &&& final(self).current as int == end
                &&& token_views(final(self).tokens@) == token_views(old(self).tokens@).push(
                    TokenV {
                        kind: TokenType::Number,
                        lexeme: src.subrange(old(self).start as int, end),
                        literal: Some(
                            LiteralV::Number(src.subrange(old(self).start as int, end)),
                        ),
                        line: old(self).line as nat,
                    },
                )
            }),
    {
        let ghost src = old(self).source@;
        let ghost from = old(self).current as int;
        while digit(self.peek())
            invariant
                self.wf(),
                self.source == old(self).source,
                self.source@ == src,
                self.tokens == old(self).tokens,
                self.start == old(self).start,
                self.line == old(self).line,
                from <= self.current as int <= src.len(),
                digit_run_end(src, from) == digit_run_end(src, self.current as int),
            decreases src.len() - self.current as int,
        {
            self.increment();
        }
        let ghost j = digit_run_end(src, from);
        if self.peek() == '.' && digit(self.peek_next()) {
            self.increment();
            while digit(self.peek())
                invariant
                    self.wf(),
                    self.source == old(self).source,
                    self.source@ == src,
                    self.tokens == old(self).tokens,
                    self.start == old(self).start,
                    self.line == old(self).line,
                    j + 1 <= self.current as int <= src.len(),
                    digit_run_end(src, j + 1) == digit_run_end(src, self.current as int),
                decreases src.len() - self.current as int,
            {
                self.increment();
            }
        }
        let text: String = self.source.as_str().substring_char(self.start, self.current).to_owned();
        self.add_token(TokenType::Number, Some(Literal::Number(text)));
        Ok(())
    }

    /// Scans an identifier: a maximal alphanumeric run, looked up in the
    /// keyword table. Entered with the first character just consumed.
    fn indentifier(&mut self) -> (r: Result<(), Error>)
        requires
            old(self).wf(),
            old(self).current as int == old(self).start as int + 1,
        ensures
            final(self).wf(),
            final(self).source == old(self).source,
            final(self).start == old(self).start,
            final(self).line == old(self).line,
            r is Ok,
            ({
                let src = old(self).source@;
                let j = word_run_end(src, old(self).current as int);
                let text = src.subrange(old(self).start as int, j);
                &&& final(self).current as int == j
                &&& token_views(final(self).tokens@) == token_views(old(self).tokens@).push(
                    TokenV {
                        kind: match keyword_kind_spec(text) {
                            Some(kind) => kind,
                            None => TokenType::Identifier,
                        },
                        lexeme: text,
                        literal: Some(LiteralV::Identifier(text)),
                        line: old(self).line as nat,
                    },
                )
            }),
    {
        let ghost src = old(self).source@;
        let ghost from = old(self).current as int;
        while !self.is_at_end() && word_char(self.peek())
            invariant
                self.wf(),
                self.source == old(self).source,
                self.source@ == src,
                self.tokens == old(self).tokens,
                self.start == old(self).start,
                self.line == old(self).line,
                from <= self.current as int <= src.len(),
                word_run_end(src, from) == word_run_end(src, self.current as int),
            decreases src.len() - self.current as int,
        {
            self.increment();
        }
        let text: String = self.source.as_str().substring_char(self.start, self.current).to_owned();
        let tt = match keyword_kind(&text) {
            Some(kind) => kind,
            None => TokenType::Identifier,
        };
        self.add_token(tt, Some(Literal::Identifier(text)));
        Ok(())
    }
}

/// Whether `c` is an ASCII decimal digit.
fn digit(c: char) -> (r: bool)
    ensures
        r == is_digit_char(c),
{
    let u = c as u32;
    48 <= u && u <= 57
}

/// The token kind of a one-character punctuation token.
fn single_kind_exec(c: char) -> (r: Option<TokenType>)
    ensures
        r == single_kind(c),
{
    if c == '(' {
        Some(TokenType::LeftParen)
    } else if c == ')' {
        Some(TokenType::RightParen)
    } else if c == '{' {
        Some(TokenType::LeftBrace)
    } else if c == '}' {
        Some(TokenType::RightBrace)
    } else if c == ',' {
        Some(TokenType::Comma)
    } else if c == '.' {
        Some(TokenType::Dot)
    } else if c == '-' {
        Some(TokenType::Minus)
    } else if c == '+' {
        Some(TokenType::Plus)
    } else if c == ';' {
        Some(TokenType::Semicolon)
    } else if c == '*' {
        Some(TokenType::Star)
    } else {
        None
    }
}

/// The one- and two-character kinds of an operator that may pair with `=`.
fn pair_kinds_exec(c: char) -> (r: Option<(TokenType, TokenType)>)
    ensures
        r == pair_kinds(c),
{
    if c == '!' {
        Some((TokenType::Bang, TokenType::BangEqual))
    } else if c == '=' {
        Some((TokenType::Equal, TokenType::EqualEqual))
    } else if c == '<' {
        Some((TokenType::Less, TokenType::LessEqual))
    } else if c == '>' {
        Some((TokenType::Greater, TokenType::GreaterEqual))
    } else {
        None
    }
}

/// Looks `text` up in the fixed keyword table.
fn keyword_kind(text: &String) -> (r: Option<TokenType>)
    ensures
        r == keyword_kind_spec(text@),
{
    if *text == "and".to_owned() {
        Some(TokenType::And)
    } else if *text == "class".to_owned() {
        Some(TokenType::Class)
    } else if *text == "else".to_owned() {
        Some(TokenType::Else)
    } else if *text == "false".to_owned() {
        Some(TokenType::False)
    } else if *text == "for".to_owned() {
        Some(TokenType::For)
    } else if *text == "fun".to_owned() {
        Some(TokenType::Fun)
    } else if *text == "if".to_owned() {
        Some(TokenType::If)
    } else if *text == "nil".to_owned() {
        Some(TokenType::Nil)
    } else if *text == "or".to_owned() {
        Some(TokenType::Or)
    } else if *text == "print".to_owned() {
        Some(TokenType::Print)
    } else if *text == "return".to_owned() {
        Some(TokenType::Return)
    } else if *text == "super".to_owned() {
        Some(TokenType::Super)
    } else if *text == "this".to_owned() {
        Some(TokenType::This)
    } else if *text == "true".to_owned() {
        Some(TokenType::True)
    } else if *text == "var".to_owned() {
        Some(TokenType::Var)
    } else if *text == "while".to_owned() {
        Some(TokenType::While)
    } else {
        None
    }
}

/// Splitting a prefix off the already-scanned tokens makes no difference.
proof fn lemma_compose_assoc(a: Seq<TokenV>, b: Seq<TokenV>, rest: Result<Seq<TokenV>, ErrorV>)
    ensures
        compose(a + b, rest) == compose(a, compose(b, rest)),
{
    match rest {
        Ok(ts) => {
            assert((a + b) + ts =~= a + (b + ts));
        },
        Err(_) => {},
    }
}

impl Scanner {
    /// Scans the one maximal run of characters beginning at `current`,
    /// emitting at most one token, or fails the whole scan. The relation
    /// to the model: whatever tokens this step appends, followed by a
    /// scan of the rest of the input, is exactly a scan from the old
    /// position.
    fn scan_token(&mut self) -> (r: Result<(), Error>)
        requires
            old(self).wf(),
            (old(self).current as int) < old(self).source@.len(),
            old(self).start == old(self).current,
        ensures
            final(self).wf(),
            final(self).source == old(self).source,
            ({
                let src = old(self).source@;
                let tv_old = token_views(old(self).tokens@);
                let tv_new = token_views(final(self).tokens@);
                match r {
                    Ok(()) => {
                        &&& old(self).current < final(self).current
                        &&& tv_old.len() <= tv_new.len()
                        &&& tv_new.subrange(0, tv_old.len() as int) == tv_old
                        &&& compose(
                            tv_new.skip(tv_old.len() as int),
                            scan_spec(src, final(self).current as int, final(self).line as int),
                        ) == scan_spec(src, old(self).current as int, old(self).line as int)
                    },
                    Err(e) => scan_spec(src, old(self).current as int, old(self).line as int)
                        == Err::<Seq<TokenV>, ErrorV>(e@),
                }
            }),
    {
        let ghost src = old(self).source@;
        let ghost pos = old(self).current as int;
        let ghost line0 = old(self).line as int;
        let ghost tv_old = token_views(old(self).tokens@);
        let copt = self.advance();
        let c = copt.unwrap();
        if let Some(kind) = single_kind_exec(c) {
            self.add_token(kind, None);
            proof {
                assert(src.subrange(pos, pos + 1) =~= seq![c]);
                lemma_step_tok(src, pos, line0, tok1(kind, c, line0), pos + 1, line0);
                lemma_push_delta(tv_old, tok1(kind, c, line0));
            }
            return Ok(());
        }
        if let Some((k1, k2)) = pair_kinds_exec(c) {
            let two = self.match_char('=');
            if two {
                self.add_token(k2, None);
                proof {
                    assert(src.subrange(pos, pos + 2) =~= seq![c, '=']);
                    lemma_step_tok(src, pos, line0, tok2(k2, c, '=', line0), pos + 2, line0);
                    lemma_push_delta(tv_old, tok2(k2, c, '=', line0));
                }
            } else {
                self.add_token(k1, None);
                proof {
                    assert(src.subrange(pos, pos + 1) =~= seq![c]);
                    lemma_step_tok(src, pos, line0, tok1(k1, c, line0), pos + 1, line0);
                    lemma_push_delta(tv_old, tok1(k1, c, line0));
                }
            }
            return Ok(());
        }
        if c == '/' {
            if self.match_char('/') {
                while self.peek() != '\n' && !self.is_at_end()
                    invariant
                        self.wf(),
                        self.source == old(self).source,
                        self.source@ == src,
                        self.tokens == old(self).tokens,
                        self.start == old(self).start,
                        self.line == old(self).line,
                        pos + 2 <= self.current as int <= src.len(),
                        find_char(src, pos + 2, '\n') == find_char(src, self.current as int, '\n'),
                    decreases src.len() - self.current as int,
                {
                    self.increment();
                }
                proof {
                    lemma_step_skip(src, pos, line0, find_char(src, pos + 2, '\n'), line0);
                    lemma_push_none(tv_old);
                    lemma_compose_empty(
                        scan_spec(src, self.current as int, self.line as int),
                    );
                }
                return Ok(());
            }
            if self.match_char('*') {
                while !self.is_at_end() && !(self.peek() == '*' && self.peek_next() == '/')
                    invariant
                        self.wf(),
                        self.source == old(self).source,
                        self.source@ == src,
                        self.tokens == old(self).tokens,
                        self.start == old(self).start,
                        pos + 2 <= self.current as int <= src.len(),
                        find_comment_close(src, pos + 2) == find_comment_close(
                            src,
                            self.current as int,
                        ),
                        self.line as int == line0 + count_nl(src, pos + 2, self.current as int),
                    decreases src.len() - self.current as int,
                {
                    let c2 = self.peek();
                    self.increment();
                    if c2 == '\n' {
                        self.line = self.line + 1;
                    }
                }
                let ghost j = find_comment_close(src, pos + 2);
                if !self.is_at_end() {
                    self.increment();
                    self.increment();
                    proof {
                        lemma_step_skip(src, pos, line0, j + 2, line0 + count_nl(src, pos + 2, j));
                    }
                } else {
                    proof {
                        lemma_step_skip(
                            src,
                            pos,
                            line0,
                            src.len() as int,
                            line0 + count_nl(src, pos + 2, src.len() as int),
                        );
                    }
                }
                proof {
                    lemma_push_none(tv_old);
                    lemma_compose_empty(
                        scan_spec(src, self.current as int, self.line as int),
                    );
                }
                return Ok(());
            }
            self.add_token(TokenType::Slash, None);
            proof {
                assert(src.subrange(pos, pos + 1) =~= seq![c]);
                lemma_step_tok(src, pos, line0, tok1(TokenType::Slash, c, line0), pos + 1, line0);
                lemma_push_delta(tv_old, tok1(TokenType::Slash, c, line0));
            }
            return Ok(());
        }
        if c == ' ' || c == '\r' || c == '\t' {
            proof {
                lemma_step_skip(src, pos, line0, pos + 1, line0);
                lemma_push_none(tv_old);
                lemma_compose_empty(scan_spec(src, pos + 1, line0));
            }
            return Ok(());
        }
        if c == '\n' {
            self.line = self.line + 1;
            proof {
                lemma_step_skip(src, pos, line0, pos + 1, line0 + 1);
                lemma_push_none(tv_old);
                lemma_compose_empty(scan_spec(src, pos + 1, line0 + 1));
            }
            return Ok(());
        }
        if c == '"' {
            match self.string() {
                Ok(()) => {
                    proof {
                        lemma_find_char(src, pos + 1, '"');
                        let j = find_char(src, pos + 1, '"');
                        let l2 = line0 + count_nl(src, pos + 1, j);
                        let t = TokenV {
                            kind: TokenType::Str,
                            lexeme: src.subrange(pos, j + 1),
                            literal: Some(LiteralV::Str(src.subrange(pos + 1, j))),
                            line: l2 as nat,
                        };
                        lemma_step_tok(src, pos, line0, t, j + 1, l2);
                        lemma_push_delta(tv_old, t);
                    }
                    return Ok(());
                },
                Err(e) => {
                    proof {
                        lemma_step_fail(
                            src,
                            pos,
                            line0,
                            ErrorV::UnterminatedString(
                                (line0 + count_nl(src, pos + 1, src.len() as int)) as nat,
                            ),
                        );
                    }
                    return Err(e);
                },
            }
        }
        if digit(c) {
            match self.number() {
                Ok(()) => {
                    proof {
                        let j = digit_run_end(src, pos + 1);
                        let end = if j < src.len() && src[j] == '.' && j + 1 < src.len()
                            && is_digit_char(src[j + 1]) {
                            digit_run_end(src, j + 1)
                        } else {
                            j
                        };
                        let t = TokenV {
                            kind: TokenType::Number,
                            lexeme: src.subrange(pos, end),
                            literal: Some(LiteralV::Number(src.subrange(pos, end))),
                            line: line0 as nat,
                        };
                        lemma_scan_step_advances(src, pos, line0);
                        lemma_step_tok(src, pos, line0, t, end, line0);
                        lemma_push_delta(tv_old, t);
                    }
                    return Ok(());
                },
                Err(e) => {
                    return Err(e);
                },
            }
        }
        if word_char(c) {
            match self.indentifier() {
                Ok(()) => {
                    proof {
                        let j = word_run_end(src, pos + 1);
                        let text = src.subrange(pos, j);
                        let t = TokenV {
                            kind: match keyword_kind_spec(text) {
                                Some(kind) => kind,
                                None => TokenType::Identifier,
                            },
                            lexeme: text,
                            literal: Some(LiteralV::Identifier(text)),
                            line: line0 as nat,
                        };
                        lemma_scan_step_advances(src, pos, line0);
                        lemma_step_tok(src, pos, line0, t, j, line0);
                        lemma_push_delta(tv_old, t);
                    }
                    return Ok(());
                },
                Err(e) => {
                    return Err(e);
                },
            }
        }
        proof {
            lemma_step_fail(src, pos, line0, ErrorV::UnexpectedCharacter(line0 as nat));
        }
        Err(Error::UnexpectedCharacter(self.line))
    }

    /// Scans the whole source: repeats `scan_token` until the end of
    /// input, then appends the one `Eof` token, whose lexeme is empty and
    /// whose line is the line the scan ended on. Returns the tokens in
    /// source order exactly as the model `scan_spec` describes, or the
    /// first lexical error, exactly when the model fails.
    pub fn scan_tokens(&mut self) -> (r: Result<Vec<Token>, Error>)
        requires
            old(self).wf(),
            old(self).current == 0usize,
            old(self).line == 1usize,
            old(self).tokens@.len() == 0,
        ensures
            final(self).wf(),
            final(self).source == old(self).source,
            match r {
                Ok(ts) => Ok::<Seq<TokenV>, ErrorV>(token_views(ts@)) == scan_spec(
                    old(self).source@,
                    0,
                    1,
                ),
                Err(e) => scan_spec(old(self).source@, 0, 1) == Err::<Seq<TokenV>, ErrorV>(e@),
            },
    {
        let ghost src = old(self).source@;
        proof {
            lemma_push_none(token_views(old(self).tokens@));
            assert(token_views(old(self).tokens@) =~= Seq::<TokenV>::empty());
            lemma_compose_empty(scan_spec(src, 0, 1));
        }
        while !self.is_at_end()
            invariant
                self.wf(),
                self.source == old(self).source,
                self.source@ == src,
                compose(
                    token_views(self.tokens@),
                    scan_spec(src, self.current as int, self.line as int),
                ) == scan_spec(src, 0, 1),
            decreases src.len() - self.current as int,
        {
            self.start = self.current;
            let ghost prev = *self;
            match self.scan_token() {
                Err(e) => {
                    proof {
                        let tv_prev = token_views(prev.tokens@);
                        assert(compose(tv_prev, scan_spec(src, prev.current as int, prev.line as int))
                            == scan_spec(src, 0, 1));
                    }
                    return Err(e);
                },
                Ok(()) => {
                    proof {
                        let tv_prev = token_views(prev.tokens@);
                        let tv_new = token_views(self.tokens@);
                        let delta = tv_new.skip(tv_prev.len() as int);
                        assert(tv_new =~= tv_prev + delta);
                        lemma_compose_assoc(
                            tv_prev,
                            delta,
                            scan_spec(src, self.current as int, self.line as int),
                        );
                    }
                },
            }
        }
        let ghost exit_state = *self;
        let t = Token::new(TokenType::Eof, String::new(), None, self.line);
        self.tokens.push(t);
        proof {
            let tvx = token_views(exit_state.tokens@);
            let lf = exit_state.line as int;
            assert(scan_spec(src, exit_state.current as int, lf) == Ok::<Seq<TokenV>, ErrorV>(
                seq![eof_token(lf)],
            ));
            assert(t@ == eof_token(lf));
            assert(token_views(self.tokens@) =~= tvx.push(t@));
            assert(tvx.push(t@) =~= tvx + seq![eof_token(lf)]);
            assert(Ok::<Seq<TokenV>, ErrorV>(token_views(self.tokens@)) == scan_spec(src, 0, 1));
        }
        let mut out: Vec<Token> = Vec::new();
        let mut i: usize = 0;
        while i < self.tokens.len()
            invariant
                i <= self.tokens@.len(),
                out@ == self.tokens@.subrange(0, i as int),
            decreases self.tokens@.len() - i,
        {
            let next = self.tokens[i].clone();
            out.push(next);
            proof {
                assert(out@ =~= self.tokens@.subrange(0, i as int + 1));
            }
            i = i + 1;
        }
        proof {
            assert(self.tokens@.subrange(0, self.tokens@.len() as int) =~= self.tokens@);
        }
        Ok(out)
    }
}

/// Dropping no tokens leaves the views as they were.
proof fn lemma_push_none(a: Seq<TokenV>)
    ensures
        a.subrange(0, a.len() as int) == a,
        a.skip(a.len() as int) == Seq::<TokenV>::empty(),
{
    assert(a.subrange(0, a.len() as int) =~= a);
    assert(a.skip(a.len() as int) =~= Seq::<TokenV>::empty());
}

/// Counting line breaks sees only the characters in range: ranges that
/// hold the same characters count the same.
proof fn lemma_count_nl_congruent(s1: Seq<char>, o1: int, s2: Seq<char>, o2: int, n: int)
    requires
        forall|k: int| 0 <= k < n ==> #[trigger] s1[o1 + k] == s2[o2 + k],
    ensures
        count_nl(s1, o1, o1 + n) == count_nl(s2, o2, o2 + n),
    decreases n,
{
    if n > 0 {
        lemma_count_nl_congruent(s1, o1, s2, o2, n - 1);
    }
}

/// A source made of single-character punctuation tokens only scans to
/// exactly one token per character, in source order, each on line 1,
/// terminated by `Eof` on the same line.
pub proof fn lemma_punctuation_scan(src: Seq<char>)
    requires
        forall|k: int| 0 <= k < src.len() ==> single_kind(#[trigger] src[k]) is Some,
    ensures
        scan_spec(src, 0, 1) == Ok::<Seq<TokenV>, ErrorV>(
            Seq::new(src.len(), |k: int| tok1(single_kind(src[k])->0, src[k], 1)).push(
                eof_token(1),
            ),
        ),
{
    lemma_punctuation_scan_from(src, 0);
    assert(Seq::new((src.len() - 0) as nat, |k: int| tok1(single_kind(src[0 + k])->0, src[0 + k], 1))
        =~= Seq::new(src.len(), |k: int| tok1(single_kind(src[k])->0, src[k], 1)));
}

proof fn lemma_punctuation_scan_from(src: Seq<char>, pos: int)
    requires
        0 <= pos <= src.len(),
        forall|k: int| 0 <= k < src.len() ==> single_kind(#[trigger] src[k]) is Some,
    ensures
        scan_spec(src, pos, 1) == Ok::<Seq<TokenV>, ErrorV>(
            Seq::new(
                (src.len() - pos) as nat,
                |k: int| tok1(single_kind(src[pos + k])->0, src[pos + k], 1),
            ).push(eof_token(1)),
        ),
    decreases src.len() - pos,
{
    let full = Seq::new(
        (src.len() - pos) as nat,
        |k: int| tok1(single_kind(src[pos + k])->0, src[pos + k], 1),
    ).push(eof_token(1));
    if pos == src.len() {
        assert(full =~= seq![eof_token(1)]);
    } else {
        let c = src[pos];
        let t = tok1(single_kind(c)->0, c, 1);
        lemma_punctuation_scan_from(src, pos + 1);
        let rest = Seq::new(
            (src.len() - pos - 1) as nat,
            |k: int| tok1(single_kind(src[pos + 1 + k])->0, src[pos + 1 + k], 1),
        ).push(eof_token(1));
        assert(scan_step(src, pos, 1) == ScanStep::Tok(t, pos + 1, 1));
        assert(scan_spec(src, pos, 1) == compose(seq![t], Ok::<Seq<TokenV>, ErrorV>(rest)));
        assert(seq![t] + rest =~= full);
    }
}

/// Where a two-character operator spelling (`!=`, `==`, `<=`, `>=`)
/// begins, the scanner emits the two-character token, never the
/// one-character token for the matched prefix.
pub proof fn lemma_two_char_operator(src: Seq<char>, pos: int, line: int)
    requires
        0 <= pos,
        pos + 1 < src.len(),
        pair_kinds(src[pos]) is Some,
        src[pos + 1] == '=',
    ensures
        match scan_spec(src, pos, line) {
            Ok(ts) => {
                &&& ts.len() > 0
                &&& ts[0] == tok2((pair_kinds(src[pos])->0).1, src[pos], '=', line)
                &&& ts[0].kind != (pair_kinds(src[pos])->0).0
            },
            Err(_) => true,
        },
{
    let t = tok2((pair_kinds(src[pos])->0).1, src[pos], '=', line);
    assert(scan_step(src, pos, line) == ScanStep::Tok(t, pos + 2, line));
    match scan_spec(src, pos + 2, line) {
        Ok(ts) => {
            assert(scan_spec(src, pos, line) == Ok::<Seq<TokenV>, ErrorV>(seq![t] + ts));
            assert((seq![t] + ts)[0] == t);
        },
        Err(_) => {},
    }
}

/// Round trip for string literals: scanning a quoted body (that itself
/// holds no quote) yields exactly one `Str` token whose literal payload
/// is the body verbatim, no escape processing, followed by `Eof`; both
/// stand on line 1 plus the line breaks inside the body.
pub proof fn lemma_string_round_trip(body: Seq<char>)
    requires
        forall|k: int| 0 <= k < body.len() ==> #[trigger] body[k] != '"',
    ensures
        ({
            let src = seq!['"'] + body + seq!['"'];
            let lf = 1 + count_nl(body, 0, body.len() as int);
            scan_spec(src, 0, 1) == Ok::<Seq<TokenV>, ErrorV>(
                seq![
                    TokenV {
                        kind: TokenType::Str,
                        lexeme: src,
                        literal: Some(LiteralV::Str(body)),
                        line: lf as nat,
                    },
                    eof_token(lf),
                ],
            )
        }),
{
    let src = seq!['"'] + body + seq!['"'];
    let n = body.len() as int;
    let lf = 1 + count_nl(body, 0, n);
    lemma_find_char(src, 1, '"');
    let j = find_char(src, 1, '"');
    assert(src[1 + n] == '"');
    assert(forall|k: int| 1 <= k < 1 + n ==> #[trigger] src[k] == body[k - 1]);
    assert(j == 1 + n);
    assert(forall|k: int| 0 <= k < n ==> #[trigger] src[1 + k] == body[0 + k]);
    lemma_count_nl_congruent(src, 1, body, 0, n);
    assert(count_nl(src, 1, j) == count_nl(body, 0, n));
    let t = TokenV {
        kind: TokenType::Str,
        lexeme: src.subrange(0, j + 1),
        literal: Some(LiteralV::Str(src.subrange(1, j))),
        line: lf as nat,
    };
    assert(scan_step(src, 0, 1) == ScanStep::Tok(t, j + 1, lf));
    assert(src.subrange(0, j + 1) =~= src);
    assert(src.subrange(1, j) =~= body);
    assert(scan_spec(src, j + 1, lf) == Ok::<Seq<TokenV>, ErrorV>(seq![eof_token(lf)]));
    assert(seq![t] + seq![eof_token(lf)] =~= seq![
        TokenV {
            kind: TokenType::Str,
            lexeme: src,
            literal: Some(LiteralV::Str(body)),
            line: lf as nat,
        },
        eof_token(lf),
    ]);
}

/// Eliding a line comment: scanning a source that begins with `//`, then
/// comment text without a line break, then either nothing or a source
/// whose first character is a line break, equals scanning the same
/// source from just past the comment text: no token and no line change
/// come out of the comment.
pub proof fn lemma_line_comment_elision(text: Seq<char>, tail: Seq<char>, line: int)
    requires
        forall|k: int| 0 <= k < text.len() ==> #[trigger] text[k] != '\n',
        tail.len() == 0 || tail[0] == '\n',
    ensures
        ({
            let src = seq!['/', '/'] + text + tail;
            scan_spec(src, 0, line) == scan_spec(src, 2 + text.len() as int, line)
        }),
{
    let src = seq!['/', '/'] + text + tail;
    let n = text.len() as int;
    lemma_find_char(src, 2, '\n');
    let j = find_char(src, 2, '\n');
    assert(forall|k: int| 2 <= k < 2 + n ==> #[trigger] src[k] == text[k - 2]);
    if tail.len() == 0 {
        assert(src.len() == 2 + n);
        assert(j == 2 + n);
    } else {
        assert(src[2 + n] == '\n');
        assert(j == 2 + n);
    }
    assert(scan_step(src, 0, line) == ScanStep::Skip(2 + n, line));
}

} // verus!
