//! Splitting source text into tokens.
use vstd::prelude::*;
use crate::text::byte_len;
use crate::text::char_width;
use crate::text::lemma_byte_len_take_step;
use crate::text::lemma_byte_len_subrange;
use crate::text::lemma_char_width_positive;
use crate::text::collect_chars;
use crate::text::string_from_chars;
use crate::text::utf8_width;
use crate::token::char_is_punct;
use crate::token::char_is_whitespace;
use crate::token::Span;
use crate::token::Token;
use crate::token::TokenTy;
use crate::token::TokenTyDisc;
use crate::token::disc_name;
use crate::token::disc_of;
use crate::text::push_char;
use crate::text::push_decimal;
use crate::text::push_repeated;
use crate::text::decimal;
use crate::token::classify_word;
use crate::token::is_punct;
use crate::token::is_white_space;
use crate::token::punct_ty;

verus! {

/// What the lexer knows after reading a prefix of the source: the tokens so far,
/// the start (character index and byte offset) of the word being read, the
/// current line, the byte offset where that line starts, and the byte offset
/// reached.
pub struct LexState {
    pub tokens: Seq<Token>,
    pub token_start: Option<(int, int)>,
    pub line: int,
    pub column_start: int,
    pub i_bytes: int,
}

pub open spec fn lex_init() -> LexState {
    LexState { tokens: Seq::empty(), token_start: None, line: 1, column_start: 0, i_bytes: 0 }
}

pub open spec fn is_delimiter(c: char) -> bool {
    is_punct(c) || is_white_space(c)
}

/// The token for the word `s[cs..i]` that starts at byte `bs`.
pub open spec fn word_token(s: Seq<char>, st: LexState, cs: int, bs: int, i: int) -> Token {
    Token {
        ty: classify_word(s.subrange(cs, i)),
        span: Span {
            line: st.line as usize,
            column: (bs - st.column_start) as usize,
            start: cs as usize,
            end: i as usize,
        },
    }
}

/// The token for `->`: a word `-` followed by `>`.
pub open spec fn arrow_token(st: LexState, cs: int, bs: int, i: int) -> Token {
    Token {
        ty: TokenTy::Arrow,
        span: Span {
            line: st.line as usize,
            column: (bs - st.column_start) as usize,
            start: cs as usize,
            end: (i + 1) as usize,
        },
    }
}

/// The token for the punctuation character `s[i]`.
pub open spec fn punct_token(s: Seq<char>, st: LexState, i: int) -> Token {
    Token {
        ty: punct_ty(s[i]),
        span: Span {
            line: st.line as usize,
            column: (st.i_bytes - st.column_start) as usize,
            start: i as usize,
            end: (i + 1) as usize,
        },
    }
}

/// Whether reading `s[i]` completes an arrow: the word being read is exactly `-`
/// and `s[i]` is `>`.
pub open spec fn completes_arrow(s: Seq<char>, st: LexState, i: int) -> bool {
    &&& st.token_start is Some
    &&& s[i] == '>'
    &&& i == (st.token_start->0).0 + 1
    &&& s[(st.token_start->0).0] == '-'
}

/// The effect of reading the delimiter `s[i]`: it ends the word being read (an
/// arrow, or a word token), and a punctuation character is a token of its own.
pub open spec fn lex_delimiter(s: Seq<char>, st: LexState, i: int) -> LexState {
    if completes_arrow(s, st, i) {
        let (cs, bs) = st.token_start->0;
        LexState { tokens: st.tokens.push(arrow_token(st, cs, bs, i)), token_start: None, ..st }
    } else {
        let st1 = match st.token_start {
            Some((cs, bs)) => LexState {
                tokens: st.tokens.push(word_token(s, st, cs, bs, i)),
                token_start: None,
                ..st
            },
            None => st,
        };
        if !is_white_space(s[i]) {
            LexState { tokens: st1.tokens.push(punct_token(s, st1, i)), ..st1 }
        } else {
            st1
        }
    }
}

/// The effect of reading `s[i]`.
pub open spec fn lex_step(s: Seq<char>, st: LexState, i: int) -> LexState {
    let c = s[i];
    let after = if is_delimiter(c) {
        lex_delimiter(s, st, i)
    } else if st.token_start is None {
        LexState { token_start: Some((i, st.i_bytes)), ..st }
    } else {
        st
    };
    let next_bytes = after.i_bytes + char_width(c);
    if c == '\n' {
        LexState { i_bytes: next_bytes, line: after.line + 1, column_start: next_bytes, ..after }
    } else {
        LexState { i_bytes: next_bytes, ..after }
    }
}

/// The lexer's state after reading the first `n` characters of `s`.
pub open spec fn lex_prefix(s: Seq<char>, n: nat) -> LexState
    decreases n,
{
    if n == 0 {
        lex_init()
    } else {
        lex_step(s, lex_prefix(s, (n - 1) as nat), n - 1)
    }
}

/// The tokens of `s`. A word is only completed by the delimiter after it, so a
/// word at the very end of the source yields no token.
pub open spec fn tokenize(s: Seq<char>) -> Seq<Token> {
    lex_prefix(s, s.len()).tokens
}

/// Facts that hold of the lexer's state after each prefix.
pub open spec fn lex_bounds(s: Seq<char>, n: nat, st: LexState) -> bool {
    &&& st.i_bytes == byte_len(s.take(n as int))
    &&& n <= st.i_bytes
    &&& 0 <= st.column_start <= st.i_bytes
    &&& 1 <= st.line <= n + 1
    &&& (st.token_start matches Some((cs, bs)) ==> {
        &&& 0 <= cs < n
        &&& bs == byte_len(s.take(cs))
        &&& st.column_start <= bs
    })
}

pub proof fn lemma_lex_bounds(s: Seq<char>, n: nat)
    requires
        n <= s.len(),
    ensures
        lex_bounds(s, n, lex_prefix(s, n)),
    decreases n,
{
    if n == 0 {
        assert(s.take(0) =~= Seq::<char>::empty());
        assert(byte_len(Seq::<char>::empty()) == 0);
    } else {
        lemma_lex_bounds(s, (n - 1) as nat);
        lemma_byte_len_take_step(s, n - 1);
        lemma_char_width_positive(s[n - 1]);
    }
}

/// Why parsing stopped: the tokens ran out, or a token was not what the grammar
/// allows there (with the message to report and the offending token's span).
#[derive(Debug)]
pub enum ParseError {
    EndOfInput,
    Syntax { message: String, span: Span },
}

/// A parse error as a value: its message as characters.
pub enum SpecParseError {
    EndOfInput,
    Syntax(Seq<char>, Span),
}

impl View for ParseError {
    type V = SpecParseError;

    open spec fn view(&self) -> SpecParseError {
        match self {
            ParseError::EndOfInput => SpecParseError::EndOfInput,
            ParseError::Syntax { message, span } => SpecParseError::Syntax(message@, *span),
        }
    }
}

/// The outcome of an operation that may fail with a parse error, as a value.
pub open spec fn outcome<T>(r: Result<T, ParseError>) -> Result<T, SpecParseError> {
    match r {
        Ok(v) => Ok(v),
        Err(e) => Err(e@),
    }
}

/// What a parsing step yields: its outcome, and the position it leaves.
pub type Step<T> = (Result<T, SpecParseError>, int);

/// Reading the token at `pos`.
pub open spec fn spec_next(toks: Seq<Token>, pos: int) -> Step<Token> {
    if 0 <= pos < toks.len() {
        (Ok(toks[pos]), pos + 1)
    } else {
        (Err(SpecParseError::EndOfInput), pos)
    }
}

/// The separator written before the `i`-th of `n` alternatives.
pub open spec fn alternative_separator(i: int, n: int) -> Seq<char> {
    if i == n - 1 {
        ", or "@
    } else if i != 0 {
        ", "@
    } else {
        Seq::empty()
    }
}

/// The first `n` alternatives of `ex`, each named and separated.
pub open spec fn alternatives(ex: Seq<TokenTyDisc>, n: nat) -> Seq<char>
    decreases n,
{
    if n == 0 {
        Seq::empty()
    } else {
        alternatives(ex, (n - 1) as nat) + alternative_separator(n - 1, ex.len() as int)
            + disc_name(ex[n - 1])
    }
}

/// The message for a token that is none of the kinds `ex`.
pub open spec fn expected_message(ex: Seq<TokenTyDisc>) -> Seq<char> {
    if ex.len() == 1 {
        "expected "@ + disc_name(ex[0])
    } else {
        "expected one of "@ + alternatives(ex, ex.len()) + seq!['\n']
    }
}

/// Reading a token that must be of kind `d`.
pub open spec fn spec_expect(toks: Seq<Token>, pos: int, d: TokenTyDisc) -> Step<Token> {
    spec_expect_one(toks, pos, seq![d])
}

/// Reading a token that must be of one of the kinds `ds`.
pub open spec fn spec_expect_one(toks: Seq<Token>, pos: int, ds: Seq<TokenTyDisc>) -> Step<Token> {
    match spec_next(toks, pos) {
        (Ok(tok), p) => if ds.contains(disc_of(tok.ty)) {
            (Ok(tok), p)
        } else {
            (Err(SpecParseError::Syntax(expected_message(ds), tok.span)), p)
        },
        (Err(e), p) => (Err(e), p),
    }
}

/// Whether two spans start at the same line and column.
pub open spec fn same_start(a: Span, b: Span) -> bool {
    a.line == b.line && a.column == b.column
}

/// The index of the first token from `k` on that starts where `span` does.
pub open spec fn find_start(toks: Seq<Token>, span: Span, k: int) -> Option<int>
    decreases toks.len() - k,
{
    if k < 0 || k >= toks.len() {
        None
    } else if same_start(toks[k].span, span) {
        Some(k)
    } else {
        find_start(toks, span, k + 1)
    }
}

/// What `find_start` finds is a token from `k` on that starts at `span`, and
/// no token before it from `k` on does.
pub proof fn lemma_find_start(toks: Seq<Token>, span: Span, k: int)
    requires
        0 <= k,
    ensures
        find_start(toks, span, k) matches Some(m) ==> {
            &&& k <= m < toks.len()
            &&& same_start(toks[m].span, span)
            &&& forall|j: int| k <= j < m ==> !same_start(#[trigger] toks[j].span, span)
        },
        find_start(toks, span, k) is None ==> forall|j: int|
            k <= j < toks.len() ==> !same_start(#[trigger] toks[j].span, span),
    decreases toks.len() - k,
{
    if k < toks.len() && !same_start(toks[k].span, span) {
        lemma_find_start(toks, span, k + 1);
    }
}

/// The first index, going back from `k`, of the run of tokens on `line`.
pub open spec fn run_start(toks: Seq<Token>, line: usize, k: int) -> int
    decreases k,
{
    if 0 < k <= toks.len() && toks[k - 1].span.line == line {
        run_start(toks, line, k - 1)
    } else {
        k
    }
}

/// The last index, going on from `k`, of the run of tokens on `line`.
pub open spec fn run_end(toks: Seq<Token>, line: usize, k: int) -> int
    decreases toks.len() - k,
{
    if 0 <= k && k + 1 < toks.len() && toks[k + 1].span.line == line {
        run_end(toks, line, k + 1)
    } else {
        k
    }
}

/// Whether the line of the token that starts at `span` (if there is one) is
/// followed by a token on another line; collecting the tokens of that line
/// needs one.
pub open spec fn line_is_followed(toks: Seq<Token>, span: Span) -> bool {
    find_start(toks, span, 0) matches Some(mid) ==> run_end(toks, span.line, mid) + 1 < toks.len()
}

/// `n` spaces.
pub open spec fn spaces(n: nat) -> Seq<char> {
    Seq::new(n, |_i: int| ' ')
}

/// The byte length of a token's text.
pub open spec fn text_bytes(s: Seq<char>, t: Token) -> int {
    byte_len(s.subrange(t.span.start as int, t.span.end as int)) as int
}

/// Where the `i`-th token of `lt` would end if it were written at its column:
/// the column after the one before it.
pub open spec fn end_before(s: Seq<char>, lt: Seq<Token>, i: int) -> int {
    if i <= 0 {
        0
    } else {
        lt[i - 1].span.column + text_bytes(s, lt[i - 1])
    }
}

/// The `k`-th token of `lt` starts at or after the column where the one before
/// it ends.
pub open spec fn follows(s: Seq<char>, lt: Seq<Token>, k: int) -> bool {
    lt[k].span.column >= lt[k - 1].span.column + text_bytes(s, lt[k - 1])
}

/// The first `n` tokens of `lt` written out, each at its column.
pub open spec fn code_line(s: Seq<char>, lt: Seq<Token>, n: nat) -> Seq<char>
    decreases n,
{
    if n == 0 {
        Seq::empty()
    } else {
        code_line(s, lt, (n - 1) as nat) + spaces((lt[n - 1].span.column - end_before(s, lt, n - 1)) as nat)
            + s.subrange(lt[n - 1].span.start as int, lt[n - 1].span.end as int)
    }
}

/// The tokens on the line of the token that starts at `span`, and the index of
/// that token among them (nothing and 0 if no token starts there).
pub open spec fn line_tokens(toks: Seq<Token>, span: Span) -> (Seq<Token>, int) {
    match find_start(toks, span, 0) {
        Some(mid) => {
            let a = run_start(toks, span.line, mid);
            (toks.subrange(a, run_end(toks, span.line, mid) + 1), mid - a)
        },
        None => (Seq::empty(), 0),
    }
}

/// What is reported of a parse error: the message, the location
/// (`file:line:column`, the column counted from 1), the line number, the tokens
/// of that line written out at their columns, and where and how wide the marker
/// under the offending token is (in bytes of the line).
pub struct ErrorReport {
    pub message: String,
    pub location: String,
    pub line_number: String,
    pub code: String,
    pub marker_offset: usize,
    pub marker_width: usize,
}

/// Every token spans characters of `s`, and none is of kind `factory` (the
/// word `factory` reads as `func`).
pub open spec fn tokens_in_source(s: Seq<char>, toks: Seq<Token>) -> bool {
    forall|k: int| 0 <= k < toks.len() ==> token_in_source(s, #[trigger] toks[k])
}

pub open spec fn token_in_source(s: Seq<char>, t: Token) -> bool {
    &&& t.span.start <= t.span.end <= s.len()
    &&& !(t.ty is Factory)
}

/// The tokens of a source file and how far parsing has read them.
pub struct ParseContext {
    chars: Vec<char>,
    file: String,
    tokens: Vec<Token>,
    pos: usize,
}

impl ParseContext {
    /// The characters of the source.
    pub closed spec fn source(&self) -> Seq<char> {
        self.chars@
    }

    /// The name of the source file, as it appears in error reports.
    pub closed spec fn file(&self) -> Seq<char> {
        self.file@
    }

    pub closed spec fn tokens(&self) -> Seq<Token> {
        self.tokens@
    }

    /// The index of the next token to read.
    pub closed spec fn pos(&self) -> nat {
        self.pos as nat
    }

    /// The tokens are those of the source, and the position lies within them.
    pub open spec fn wf(&self) -> bool {
        &&& self.tokens() == tokenize(self.source())
        &&& self.pos() <= self.tokens().len()
        &&& byte_len(self.source()) < usize::MAX
        &&& tokens_in_source(self.source(), self.tokens())
    }

    /// Splits `tokens` into tokens; `filename` names the source in error reports.
    pub fn new(tokens: &str, filename: &str) -> (ctx: ParseContext)
        requires
            byte_len(tokens@) < usize::MAX,
        ensures
            ctx.wf(),
            ctx.source() == tokens@,
            ctx.tokens() == tokenize(tokens@),
            ctx.pos() == 0,
            ctx.file() == filename@,
    {
        let chars = collect_chars(tokens);
        let mut vec: Vec<Token> = Vec::new();
        let mut token_start: Option<(usize, usize)> = None;
        let mut line: usize = 1;
        let mut column_start: usize = 0;
        let mut i_bytes: usize = 0;
        let mut i: usize = 0;
        while i < chars.len()
            invariant
                i <= chars.len(),
                chars@ == tokens@,
                byte_len(chars@) < usize::MAX,
                vec@ == lex_prefix(chars@, i as nat).tokens,
                line == lex_prefix(chars@, i as nat).line,
                column_start == lex_prefix(chars@, i as nat).column_start,
                i_bytes == lex_prefix(chars@, i as nat).i_bytes,
                match token_start {
                    Some((a, b)) => lex_prefix(chars@, i as nat).token_start == Some((a as int, b as int)),
                    None => lex_prefix(chars@, i as nat).token_start is None,
                },
            decreases chars.len() - i,
        {
            let ghost s = chars@;
            let ghost st = lex_prefix(s, i as nat);
            proof {
                lemma_lex_bounds(s, i as nat);
                lemma_lex_bounds(s, (i + 1) as nat);
                lemma_byte_len_take_step(s, i as int);
                lemma_byte_len_subrange(s, i + 1, s.len() as int);
                assert(s.take(s.len() as int) =~= s);
            }
            let c = chars[i];
            let is_ws = char_is_whitespace(c);
            if char_is_punct(c) || is_ws {
                let mut arrow = false;
                if let Some((start, start_bytes)) = token_start {
                    if c == '>' && start + 1 == i && chars[start] == '-' {
                        vec.push(
                            Token {
                                ty: TokenTy::Arrow,
                                span: Span {
                                    line,
                                    column: start_bytes - column_start,
                                    start,
                                    end: i + 1,
                                },
                            },
                        );
                        token_start = None;
                        arrow = true;
                    } else {
                        let word = string_from_chars(&chars, start, i);
                        let ty = TokenTy::from_word(word.as_str());
                        vec.push(
                            Token {
                                ty,
                                span: Span { line, column: start_bytes - column_start, start, end: i },
                            },
                        );
                        token_start = None;
                    }
                }
                if !arrow && !is_ws {
                    vec.push(
                        Token {
                            ty: TokenTy::from_punct(c),
                            span: Span { line, column: i_bytes - column_start, start: i, end: i + 1 },
                        },
                    );
                }
            } else if token_start.is_none() {
                token_start = Some((i, i_bytes));
            }
            let w = utf8_width(c);
            i_bytes = i_bytes + w;
            if c == '\n' {
                line = line + 1;
                column_start = i_bytes;
            }
            i = i + 1;
        }
        proof {
            crate::lexer_laws::lemma_tokens_in_source(chars@);
        }
        ParseContext { chars, file: filename.to_owned(), tokens: vec, pos: 0 }
    }

    /// The next token, without reading it.
    pub fn peek(&self) -> (r: Option<Token>)
        ensures
            r == (if self.pos() < self.tokens().len() {
                Some(self.tokens()[self.pos() as int])
            } else {
                None
            }),
    {
        if self.pos < self.tokens.len() {
            Some(self.tokens[self.pos])
        } else {
            None
        }
    }

    /// The source, its name and its tokens are the same in both.
    pub open spec fn same_tokens(&self, other: &ParseContext) -> bool {
        &&& self.source() == other.source()
        &&& self.file() == other.file()
        &&& self.tokens() == other.tokens()
    }

    /// Reads the next token.
    pub fn next(&mut self) -> (r: Result<Token, ParseError>)
        requires
            old(self).wf(),
        ensures
            final(self).wf(),
            final(self).same_tokens(old(self)),
            (outcome(r), final(self).pos() as int) == spec_next(old(self).tokens(), old(self).pos() as int),
            r matches Ok(t) ==> t.span.start <= t.span.end <= final(self).source().len(),
    {
        if self.pos < self.tokens.len() {
            let ret = self.tokens[self.pos];
            assert(token_in_source(self.chars@, self.tokens@[self.pos as int]));
            self.pos += 1;
            Ok(ret)
        } else {
            Err(ParseError::EndOfInput)
        }
    }

    /// Reads the next token, which must be of kind `expected`.
    pub fn expect(&mut self, expected: TokenTyDisc) -> (r: Result<Token, ParseError>)
        requires
            old(self).wf(),
        ensures
            final(self).wf(),
            final(self).same_tokens(old(self)),
            (outcome(r), final(self).pos() as int) == spec_expect(old(self).tokens(), old(self).pos() as int, expected),
            r matches Ok(t) ==> t.span.start <= t.span.end <= final(self).source().len(),
    {
        let tok = self.next()?;
        if tok.ty.as_disc() == expected {
            return Ok(tok);
        } else {
            proof {
                assert(!seq![expected].contains(disc_of(tok.ty))) by {
                    if seq![expected].contains(disc_of(tok.ty)) {
                        let k = choose|k: int| 0 <= k < 1 && seq![expected][k] == disc_of(tok.ty);
                        assert(seq![expected][k] == expected);
                    }
                }
            }
            Err(self.error_unexpected(&[expected], tok.span))
        }
    }

    /// Reads the next token, which must be of one of the kinds `expected`.
    #[verifier::loop_isolation(false)]
    pub fn expect_one(&mut self, expected: &[TokenTyDisc]) -> (r: Result<Token, ParseError>)
        requires
            old(self).wf(),
        ensures
            final(self).wf(),
            final(self).same_tokens(old(self)),
            (outcome(r), final(self).pos() as int) == spec_expect_one(old(self).tokens(), old(self).pos() as int, expected@),
            r matches Ok(t) ==> t.span.start <= t.span.end <= final(self).source().len(),
    {
        let tok = self.next()?;
        let d = tok.ty.as_disc();
        let mut i: usize = 0;
        while i < expected.len()
            invariant
                i <= expected.len(),
                forall|k: int| 0 <= k < i ==> expected@[k] != d,
            decreases expected.len() - i,
        {
            if expected[i] == d {
                assert(expected@[i as int] == disc_of(tok.ty));
                assert(expected@.contains(disc_of(tok.ty)));
                return Ok(tok);
            }
            i += 1;
        }
        Err(self.error_unexpected(expected, tok.span))
    }

    /// The index of the first token that starts where `span` does.
    pub fn span_to_idx(&self, span: Span) -> (r: Option<usize>)
        ensures
            r matches Some(k) ==> {
                &&& find_start(self.tokens(), span, 0) == Some(k as int)
                &&& k < self.tokens().len()
                &&& same_start(self.tokens()[k as int].span, span)
            },
            r is None ==> find_start(self.tokens(), span, 0) is None,
    {
        proof {
            lemma_find_start(self.tokens@, span, 0);
        }
        let mut i: usize = 0;
        while i < self.tokens.len()
            invariant
                i <= self.tokens@.len(),
                find_start(self.tokens@, span, 0) == find_start(self.tokens@, span, i as int),
            decreases self.tokens.len() - i,
        {
            if self.tokens[i].span.line == span.line && self.tokens[i].span.column == span.column {
                return Some(i);
            }
            i += 1;
        }
        None
    }

    /// The tokens on the line of the token that starts at `span`, and the index
    /// of that token among them; nothing if no token starts there.
    pub fn tokens_by_line(&self, span: Span) -> (r: (&[Token], usize))
        requires
            line_is_followed(self.tokens(), span),
        ensures
            match find_start(self.tokens(), span, 0) {
                Some(mid) => {
                    let a = run_start(self.tokens(), span.line, mid);
                    let b = run_end(self.tokens(), span.line, mid);
                    &&& r.0@ == self.tokens().subrange(a, b + 1)
                    &&& r.1 == mid - a
                },
                None => r.0@.len() == 0 && r.1 == 0,
            },
    {
        let mid = match self.span_to_idx(span) {
            Some(mid) => mid,
            None => {
                return (&[], 0);
            },
        };
        let n = self.tokens.len();
        let mut start = mid;
        let mut end = mid;
        while start != 0
            invariant
                start <= mid < self.tokens@.len(),
                run_start(self.tokens@, span.line, mid as int) == run_start(self.tokens@, span.line, start as int),
            ensures
                start <= mid,
                run_start(self.tokens@, span.line, mid as int) == start,
            decreases start,
        {
            if self.tokens[start - 1].span.line == span.line {
                start -= 1;
            } else {
                break;
            }
        }
        while end < self.tokens.len()
            invariant
                n == self.tokens@.len(),
                mid <= end < self.tokens@.len(),
                run_end(self.tokens@, span.line, mid as int) == run_end(self.tokens@, span.line, end as int),
                run_end(self.tokens@, span.line, mid as int) + 1 < self.tokens@.len(),
            ensures
                mid <= end < n,
                run_end(self.tokens@, span.line, mid as int) == end,
            decreases self.tokens.len() - end,
        {
            if self.tokens[end + 1].span.line == span.line {
                end += 1;
            } else {
                break;
            }
        }
        (vstd::slice::slice_subrange(self.tokens.as_slice(), start, end + 1), mid - start)
    }

    /// Whether the tokens of the line of `span` can be collected
    /// (`line_is_followed`).
    pub fn can_show_line(&self, span: Span) -> (r: bool)
        ensures
            r == line_is_followed(self.tokens(), span),
    {
        match self.span_to_idx(span) {
            None => true,
            Some(mid) => {
                let n = self.tokens.len();
                let mut end = mid;
                while end < self.tokens.len() - 1 && self.tokens[end + 1].span.line == span.line
                    invariant
                        n == self.tokens@.len(),
                        mid <= end < self.tokens@.len(),
                        run_end(self.tokens@, span.line, mid as int) == run_end(self.tokens@, span.line, end as int),
                    ensures
                        mid <= end < n,
                        run_end(self.tokens@, span.line, mid as int) == end,
                    decreases self.tokens.len() - end,
                {
                    end += 1;
                }
                end + 1 < self.tokens.len()
            },
        }
    }

    /// The report of an error with message `string` at `span`: the location, and
    /// the line the offending token stands on, its tokens written out at their
    /// columns, with a marker of the token's width under it.
    pub fn error_str(&self, string: &str, span: Span) -> (rep: ErrorReport)
        requires
            self.wf(),
            span.start <= span.end <= self.source().len(),
            line_is_followed(self.tokens(), span),
        ensures
            rep.message@ == string@,
            rep.location@ == self.file() + seq![':'] + decimal(span.line as nat) + seq![':'] + decimal(
                (span.column + 1) as nat,
            ),
            rep.line_number@ == decimal(span.line as nat),
            rep.code@ == code_line(
                self.source(),
                line_tokens(self.tokens(), span).0,
                line_tokens(self.tokens(), span).0.len(),
            ),
            rep.marker_offset == (if find_start(self.tokens(), span, 0) is Some {
                span.column
            } else {
                0
            }),
            rep.marker_width == byte_len(self.source().subrange(span.start as int, span.end as int)),
    {
        let ghost s = self.chars@;
        proof {
            crate::text::lemma_byte_len_subrange(s, span.start as int, span.end as int);
            crate::text::lemma_byte_len_subrange(s, span.end as int, s.len() as int);
            crate::text::lemma_byte_len_subrange(s, 0, span.start as int);
            assert(s.take(s.len() as int) =~= s);
        }
        let mut location = self.file.clone();
        push_char(&mut location, ':');
        push_decimal(&mut location, span.line as u128);
        push_char(&mut location, ':');
        push_decimal(&mut location, span.column as u128 + 1);
        let mut line_number = String::new();
        push_decimal(&mut line_number, span.line as u128);
        let line = self.tokens_by_line(span);
        let lt = line.0;
        let m = line.1;
        proof {
            crate::lexer_laws::lemma_line_tokens(s, self.tokens@, span);
        }
        let (code, whitespace) = self.render_line(lt, m);
        let marker = self.text_of(span);
        let marker_width = marker.as_str().len();
        ErrorReport {
            message: String::from_str(string),
            location,
            line_number,
            code,
            marker_offset: whitespace,
            marker_width,
        }
    }

    /// The tokens `lt` (of one line, in order) written out at their columns, and
    /// the column of the `m`-th of them (0 if there are none).
    fn render_line(&self, lt: &[Token], m: usize) -> (r: (String, usize))
        requires
            byte_len(self.source()) < usize::MAX,
            lt@.len() > 0 ==> m < lt@.len(),
            forall|k: int| 0 <= k < lt@.len() ==> crate::lexer_laws::token_placed(self.source(), #[trigger] lt@[k]),
            forall|k: int| 0 <= k < lt@.len() ==> #[trigger] lt@[k].span.column + text_bytes(self.source(), lt@[k]) <= byte_len(self.source()),
            forall|k: int| 0 < k < lt@.len() ==> #[trigger] follows(self.source(), lt@, k),
        ensures
            r.0@ == code_line(self.source(), lt@, lt@.len()),
            r.1 == (if lt@.len() > 0 { lt@[m as int].span.column } else { 0 }),
    {
        let ghost s = self.chars@;
        let mut code = String::new();
        let mut whitespace: usize = 0;
        let mut prev_end: usize = 0;
        let mut i: usize = 0;
        while i < lt.len()
            invariant
                s == self.chars@,
                byte_len(s) < usize::MAX,
                lt@.len() > 0 ==> 0 <= m < lt@.len(),
                forall|k: int| 0 <= k < lt@.len() ==> #[trigger] lt@[k].span.column + text_bytes(s, lt@[k]) <= byte_len(s),
                forall|k: int| 0 < k < lt@.len() ==> #[trigger] follows(s, lt@, k),
                forall|k: int| 0 <= k < lt@.len() ==> crate::lexer_laws::token_placed(s, #[trigger] lt@[k]),
                i <= lt@.len(),
                code@ == code_line(s, lt@, i as nat),
                prev_end == end_before(s, lt@, i as int),
                whitespace == (if i <= m {
                    end_before(s, lt@, i as int)
                } else {
                    lt@[m as int].span.column as int
                }),
                prev_end <= byte_len(s),
            decreases lt.len() - i,
        {
            let tok = lt[i];
            proof {
                if i > 0 {
                    assert(follows(s, lt@, i as int));
                }
                crate::text::lemma_byte_len_subrange(s, tok.span.start as int, tok.span.end as int);
            }
            let text = self.text_of(tok.span);
            let len = text.as_str().len();
            let space_before = tok.span.column - prev_end;
            if i <= m {
                whitespace += space_before;
            }
            if i < m {
                whitespace += len;
            }
            push_repeated(&mut code, ' ', space_before);
            code.append(text.as_str());
            prev_end = tok.span.column + len;
            i += 1;
            assert(code@ =~= code_line(s, lt@, i as nat));
        }
        (code, whitespace)
    }

    /// The characters that `span` covers.
    pub fn text_of(&self, span: Span) -> (t: String)
        requires
            span.start <= span.end <= self.source().len(),
        ensures
            t@ == self.source().subrange(span.start as int, span.end as int),
    {
        string_from_chars(&self.chars, span.start, span.end)
    }

    /// The error for a token at `span` that is none of the kinds `expected`.
    pub fn error_unexpected(&self, expected: &[TokenTyDisc], span: Span) -> (e: ParseError)
        ensures
            e@ == SpecParseError::Syntax(expected_message(expected@), span),
    {
        let message = if expected.len() == 1 {
            let mut s = String::from_str("expected ");
            s.append(expected[0].name());
            s
        } else {
            let mut s = String::from_str("expected one of ");
            let ghost prefix = s@;
            let n = expected.len();
            let mut i: usize = 0;
            while i < n
                invariant
                    n == expected@.len(),
                    i <= n,
                    s@ == prefix + alternatives(expected@, i as nat),
                decreases n - i,
            {
                if i == n - 1 {
                    s.append(", or ");
                } else if i != 0 {
                    s.append(", ");
                }
                s.append(expected[i].name());
                i += 1;
                assert(s@ =~= prefix + alternatives(expected@, i as nat));
            }
            push_char(&mut s, '\n');
            assert(s@ =~= expected_message(expected@));
            s
        };
        ParseError::Syntax { message, span }
    }
}

} // verus!
