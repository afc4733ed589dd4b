//! What holds of every token the lexer produces: where it stands in the
//! source, and that its kind is the one its text calls for.
use vstd::prelude::*;
use crate::lexer::LexState;
use crate::lexer::is_delimiter;
use crate::lexer::lex_prefix;
use crate::lexer::lemma_lex_bounds;
use crate::lexer::tokenize;
use crate::lexer::run_start;
use crate::lexer::run_end;
use crate::lexer::text_bytes;
use crate::lexer::follows;
use crate::lexer::line_tokens;
use crate::lexer::find_start;
use crate::lexer::lemma_find_start;
use crate::lexer::same_start;
use crate::token::Span;
use crate::text::byte_len;
use crate::text::lemma_byte_len_subrange;
use crate::token::Token;
use crate::token::TokenTy;
use crate::token::classify_word;
use crate::token::is_punct;
use crate::token::punct_ty;

verus! {

/// The number of line breaks among the first `k` characters of `s`.
pub open spec fn newlines(s: Seq<char>, k: int) -> nat
    decreases k,
{
    if k <= 0 {
        0
    } else {
        newlines(s, k - 1) + if s[k - 1] == '\n' {
            1nat
        } else {
            0nat
        }
    }
}

/// The index of the first character of the line that position `k` lies on.
pub open spec fn line_start(s: Seq<char>, k: int) -> int
    decreases k,
{
    if k <= 0 {
        0
    } else if s[k - 1] == '\n' {
        k
    } else {
        line_start(s, k - 1)
    }
}

/// The characters `s[start..end]` that a token spans.
pub open spec fn token_text(s: Seq<char>, t: Token) -> Seq<char> {
    s.subrange(t.span.start as int, t.span.end as int)
}

/// A token spans a non-empty stretch of one line of `s`; its line and its
/// column (in bytes from the start of that line) are where that stretch starts.
pub open spec fn token_placed(s: Seq<char>, t: Token) -> bool {
    &&& 0 <= t.span.start < t.span.end <= s.len()
    &&& t.span.line == 1 + newlines(s, t.span.start as int)
    &&& t.span.column == byte_len(s.take(t.span.start as int)) - byte_len(
        s.take(line_start(s, t.span.start as int)),
    )
    &&& forall|j: int| t.span.start <= j < t.span.end ==> s[j] != '\n'
}

/// A token's kind is the one its text calls for: a punctuation character, the
/// arrow `->`, or a word of characters that are no delimiters.
pub open spec fn token_kind_fits(s: Seq<char>, t: Token) -> bool {
    let text = token_text(s, t);
    ||| text.len() == 1 && is_punct(text[0]) && t.ty == punct_ty(text[0])
    ||| text == seq!['-', '>'] && t.ty == TokenTy::Arrow
    ||| (forall|j: int| 0 <= j < text.len() ==> !is_delimiter(text[j])) && t.ty == classify_word(text)
}

/// Every token is placed and of the kind its text calls for, and the tokens come
/// in source order without overlapping.
pub open spec fn tokens_placed(s: Seq<char>, toks: Seq<Token>) -> bool {
    &&& forall|k: int| 0 <= k < toks.len() ==> token_placed(s, #[trigger] toks[k])
    &&& forall|k: int| 0 <= k < toks.len() ==> token_kind_fits(s, #[trigger] toks[k])
    &&& forall|i: int, j: int|
        0 <= i < j < toks.len() ==> #[trigger] toks[i].span.end <= #[trigger] toks[j].span.start
}

proof fn lemma_no_newline_same_line(s: Seq<char>, a: int, b: int)
    requires
        0 <= a <= b <= s.len(),
        forall|j: int| a <= j < b ==> s[j] != '\n',
    ensures
        newlines(s, a) == newlines(s, b),
        line_start(s, a) == line_start(s, b),
    decreases b - a,
{
    if a < b {
        lemma_no_newline_same_line(s, a, b - 1);
    }
}

proof fn lemma_line_start_bounds(s: Seq<char>, k: int)
    requires
        0 <= k <= s.len(),
    ensures
        0 <= line_start(s, k) <= k,
    decreases k,
{
    if k > 0 {
        lemma_line_start_bounds(s, k - 1);
    }
}

/// The state of the lexer after `n` characters, beyond `lex_bounds`.
spec fn lex_placed(s: Seq<char>, n: int, st: LexState) -> bool {
    &&& tokens_placed(s, st.tokens)
    &&& forall|k: int| 0 <= k < st.tokens.len() ==> #[trigger] st.tokens[k].span.end <= n
    &&& st.line == 1 + newlines(s, n)
    &&& st.column_start == byte_len(s.take(line_start(s, n)))
    &&& (st.token_start matches Some((cs, bs)) ==> {
        &&& forall|k: int| 0 <= k < st.tokens.len() ==> #[trigger] st.tokens[k].span.end <= cs
        &&& forall|j: int| cs <= j < n ==> !is_delimiter(#[trigger] s[j])
    })
}

proof fn lemma_push_placed(s: Seq<char>, toks: Seq<Token>, t: Token)
    requires
        tokens_placed(s, toks),
        token_placed(s, t),
        token_kind_fits(s, t),
        forall|k: int| 0 <= k < toks.len() ==> #[trigger] toks[k].span.end <= t.span.start,
    ensures
        tokens_placed(s, toks.push(t)),
{
    let ts = toks.push(t);
    assert forall|k: int| 0 <= k < ts.len() implies token_placed(s, #[trigger] ts[k]) by {
        if k < toks.len() {
            assert(ts[k] == toks[k]);
        }
    }
    assert forall|k: int| 0 <= k < ts.len() implies token_kind_fits(s, #[trigger] ts[k]) by {
        if k < toks.len() {
            assert(ts[k] == toks[k]);
        }
    }
    assert forall|i: int, j: int| 0 <= i < j < ts.len() implies #[trigger] ts[i].span.end
        <= #[trigger] ts[j].span.start by {
        assert(ts[i] == toks[i]);
        if j < toks.len() {
            assert(ts[j] == toks[j]);
        }
    }
}

#[verifier::rlimit(60)]
#[verifier::spinoff_prover]
proof fn lemma_lex_placed(s: Seq<char>, n: nat)
    requires
        n <= s.len(),
        byte_len(s) < usize::MAX,
    ensures
        lex_placed(s, n as int, lex_prefix(s, n)),
    decreases n,
{
    lemma_lex_bounds(s, n);
    if n == 0 {
        assert(s.take(0) =~= Seq::<char>::empty());
    } else {
        let i = n - 1;
        let st = lex_prefix(s, i as nat);
        lemma_lex_placed(s, i as nat);
        lemma_lex_bounds(s, i as nat);
        lemma_line_start_bounds(s, i);
        lemma_byte_len_subrange(s, line_start(s, i), i);
        lemma_byte_len_subrange(s, i, s.len() as int);
        assert(s.take(s.len() as int) =~= s);
        let c = s[i];
        let nst = lex_prefix(s, n);
        if is_delimiter(c) {
            match st.token_start {
                Some((cs, bs)) => {
                    lemma_no_newline_same_line(s, cs, i);
                    lemma_line_start_bounds(s, cs);
                    lemma_byte_len_subrange(s, line_start(s, cs), cs);
                    lemma_byte_len_subrange(s, cs, i);
                    lemma_byte_len_subrange(s, 0, cs);
                }
                None => {},
            }
            let mid = crate::lexer::lex_delimiter(s, st, i);
            if crate::lexer::completes_arrow(s, st, i) {
                let (cs, bs) = st.token_start->0;
                let t = crate::lexer::arrow_token(st, cs, bs, i);
                assert(token_text(s, t) =~= seq!['-', '>']);
                lemma_no_newline_same_line(s, cs, i);
                lemma_push_placed(s, st.tokens, t);
            } else {
                let st1 = match st.token_start {
                    Some((cs, bs)) => {
                        let t = crate::lexer::word_token(s, st, cs, bs, i);
                        assert forall|j: int| 0 <= j < token_text(s, t).len() implies !is_delimiter(
                            token_text(s, t)[j],
                        ) by {
                            assert(token_text(s, t)[j] == s[cs + j]);
                        }
                        lemma_push_placed(s, st.tokens, t);
                        LexState {
                            tokens: st.tokens.push(t),
                            token_start: None,
                            ..st
                        }
                    },
                    None => st,
                };
                if !crate::token::is_white_space(c) {
                    let t = crate::lexer::punct_token(s, st1, i);
                    assert(token_text(s, t) =~= seq![c]);
                    assert forall|k: int| 0 <= k < st1.tokens.len() implies #[trigger] st1.tokens[k].span.end
                        <= t.span.start by {
                        if k < st.tokens.len() {
                            assert(st1.tokens[k] == st.tokens[k]);
                        }
                    }
                    lemma_push_placed(s, st1.tokens, t);
                }
                assert(mid.tokens.len() <= st.tokens.len() + 2);
            }
        } else {
        }
        assert(newlines(s, n as int) == newlines(s, i) + if c == '\n' {
            1nat
        } else {
            0nat
        });
        lemma_byte_len_subrange(s, i, n as int);
        assert(s.subrange(i, n as int) =~= seq![c]);
        crate::text::lemma_byte_len_single(c);
        assert forall|k: int| 0 <= k < nst.tokens.len() implies #[trigger] nst.tokens[k].span.end <= n by {
            if k < st.tokens.len() {
                assert(nst.tokens[k] == st.tokens[k]);
            }
        }
    }
}

/// The tokens of any source are placed where they stand in it, are of the kind
/// their text calls for, and come in source order without overlapping.
pub proof fn lemma_tokenize_placed(s: Seq<char>)
    requires
        byte_len(s) < usize::MAX,
    ensures
        tokens_placed(s, tokenize(s)),
{
    lemma_lex_placed(s, s.len());
}


/// Two tokens on the same line, one after the other, do not overlap there:
/// the second starts at or after the column where the first ends.
pub proof fn lemma_same_line_columns(s: Seq<char>, toks: Seq<Token>, i: int, j: int)
    requires
        tokens_placed(s, toks),
        0 <= i < j < toks.len(),
        toks[i].span.line == toks[j].span.line,
    ensures
        toks[j].span.column >= toks[i].span.column + text_bytes(s, toks[i]),
{
    let a = toks[i];
    let b = toks[j];
    assert(token_placed(s, a));
    assert(token_placed(s, b));
    assert(a.span.end <= b.span.start);
    lemma_newlines_mono(s, a.span.start as int, b.span.start as int);
    lemma_same_newlines_same_line_start(s, a.span.start as int, b.span.start as int);
    lemma_line_start_bounds(s, a.span.start as int);
    lemma_byte_len_subrange(s, line_start(s, a.span.start as int), a.span.start as int);
    lemma_byte_len_subrange(s, a.span.start as int, a.span.end as int);
    lemma_byte_len_subrange(s, a.span.end as int, b.span.start as int);
    lemma_byte_len_subrange(s, 0, a.span.start as int);
    assert(s.take(a.span.end as int) =~= s.take(a.span.start as int) + s.subrange(a.span.start as int, a.span.end as int));
    crate::text::lemma_byte_len_concat(s.take(a.span.start as int), s.subrange(a.span.start as int, a.span.end as int));
    assert(s.take(b.span.start as int) =~= s.take(a.span.end as int) + s.subrange(a.span.end as int, b.span.start as int));
    crate::text::lemma_byte_len_concat(s.take(a.span.end as int), s.subrange(a.span.end as int, b.span.start as int));
}

/// A token ends, in bytes, within the source.
pub proof fn lemma_token_within(s: Seq<char>, t: Token)
    requires
        token_placed(s, t),
    ensures
        t.span.column + text_bytes(s, t) <= byte_len(s),
{
    lemma_line_start_bounds(s, t.span.start as int);
    lemma_byte_len_subrange(s, line_start(s, t.span.start as int), t.span.start as int);
    lemma_byte_len_subrange(s, t.span.start as int, t.span.end as int);
    lemma_byte_len_subrange(s, t.span.end as int, s.len() as int);
    assert(s.take(s.len() as int) =~= s);
    assert(s.take(t.span.end as int) =~= s.take(t.span.start as int) + s.subrange(t.span.start as int, t.span.end as int));
    crate::text::lemma_byte_len_concat(s.take(t.span.start as int), s.subrange(t.span.start as int, t.span.end as int));
}

proof fn lemma_newlines_mono(s: Seq<char>, a: int, b: int)
    requires
        0 <= a <= b <= s.len(),
    ensures
        newlines(s, a) <= newlines(s, b),
        newlines(s, a) == newlines(s, b) ==> forall|j: int| a <= j < b ==> s[j] != '\n',
    decreases b - a,
{
    if a < b {
        lemma_newlines_mono(s, a, b - 1);
    }
}

proof fn lemma_same_newlines_same_line_start(s: Seq<char>, a: int, b: int)
    requires
        0 <= a <= b <= s.len(),
        newlines(s, a) == newlines(s, b),
    ensures
        line_start(s, a) == line_start(s, b),
{
    lemma_newlines_mono(s, a, b);
    lemma_no_newline_same_line(s, a, b);
}

/// The tokens from `run_start` to `run_end` around a token on `line` are all on
/// that line.
pub proof fn lemma_run_on_line(toks: Seq<Token>, line: usize, mid: int)
    requires
        0 <= mid < toks.len(),
        toks[mid].span.line == line,
    ensures
        0 <= run_start(toks, line, mid) <= mid <= run_end(toks, line, mid) < toks.len(),
        forall|k: int|
            run_start(toks, line, mid) <= k <= run_end(toks, line, mid) ==> #[trigger] toks[k].span.line
                == line,
{
    lemma_run_start(toks, line, mid);
    lemma_run_end(toks, line, mid);
}

proof fn lemma_run_start(toks: Seq<Token>, line: usize, k: int)
    requires
        0 <= k < toks.len(),
        toks[k].span.line == line,
    ensures
        0 <= run_start(toks, line, k) <= k,
        forall|j: int| run_start(toks, line, k) <= j <= k ==> #[trigger] toks[j].span.line == line,
    decreases k,
{
    if 0 < k && toks[k - 1].span.line == line {
        lemma_run_start(toks, line, k - 1);
    }
}

proof fn lemma_run_end(toks: Seq<Token>, line: usize, k: int)
    requires
        0 <= k < toks.len(),
        toks[k].span.line == line,
    ensures
        k <= run_end(toks, line, k) < toks.len(),
        forall|j: int| k <= j <= run_end(toks, line, k) ==> #[trigger] toks[j].span.line == line,
    decreases toks.len() - k,
{
    if k + 1 < toks.len() && toks[k + 1].span.line == line {
        lemma_run_end(toks, line, k + 1);
    }
}


/// The tokens that an error report shows for `span`: all on the span's line,
/// each within the source, each starting at or after the column where the one
/// before it ends, and the one at the reported index starting at `span`.
#[verifier::spinoff_prover]
#[verifier::rlimit(40)]
pub proof fn lemma_line_tokens(s: Seq<char>, toks: Seq<Token>, span: Span)
    requires
        toks == tokenize(s),
        byte_len(s) < usize::MAX,
    ensures
        ({
            let (lt, m) = line_tokens(toks, span);
            &&& (find_start(toks, span, 0) is Some <==> lt.len() > 0)
            &&& lt.len() > 0 ==> 0 <= m < lt.len() && same_start(lt[m].span, span)
            &&& forall|k: int| 0 <= k < lt.len() ==> #[trigger] lt[k].span.line == span.line
            &&& forall|k: int| 0 <= k < lt.len() ==> token_placed(s, #[trigger] lt[k])
            &&& forall|k: int|
                0 <= k < lt.len() ==> #[trigger] lt[k].span.column + text_bytes(s, lt[k]) <= byte_len(s)
            &&& forall|k: int| 0 < k < lt.len() ==> #[trigger] follows(s, lt, k)
        }),
{
    lemma_tokenize_placed(s);
    lemma_find_start(toks, span, 0);
    let (lt, m) = line_tokens(toks, span);
    if let Some(mid) = find_start(toks, span, 0) {
        lemma_run_on_line(toks, span.line, mid);
        let a = run_start(toks, span.line, mid);
        assert forall|k: int| 0 <= k < lt.len() implies #[trigger] lt[k].span.line == span.line by {
            assert(lt[k] == toks[a + k]);
        }
        assert forall|k: int| 0 <= k < lt.len() implies token_placed(s, #[trigger] lt[k]) by {
            assert(lt[k] == toks[a + k]);
            assert(token_placed(s, toks[a + k]));
        }
        assert forall|k: int| 0 <= k < lt.len() implies #[trigger] lt[k].span.column + text_bytes(
            s,
            lt[k],
        ) <= byte_len(s) by {
            assert(lt[k] == toks[a + k]);
            assert(token_placed(s, toks[a + k]));
            lemma_token_within(s, toks[a + k]);
        }
        assert forall|k: int| 0 < k < lt.len() implies #[trigger] follows(s, lt, k) by {
            assert(lt[k] == toks[a + k]);
            assert(lt[k - 1] == toks[a + k - 1]);
            lemma_same_line_columns(s, toks, a + k - 1, a + k);
        }
        assert(lt[m] == toks[mid]);
    }
}


/// Every token spans characters of the source, and none is of kind `factory`.
pub proof fn lemma_tokens_in_source(s: Seq<char>)
    requires
        byte_len(s) < usize::MAX,
    ensures
        crate::lexer::tokens_in_source(s, tokenize(s)),
{
    lemma_tokenize_placed(s);
    let toks = tokenize(s);
    assert forall|k: int| 0 <= k < toks.len() implies crate::lexer::token_in_source(s, #[trigger] toks[k]) by {
        assert(token_placed(s, toks[k]));
        assert(token_kind_fits(s, toks[k]));
    }
}


/// The characters of `s` that are not white space, in order.
pub open spec fn visible(s: Seq<char>) -> Seq<char>
    decreases s.len(),
{
    if s.len() == 0 {
        Seq::empty()
    } else if crate::token::is_white_space(s.last()) {
        visible(s.drop_last())
    } else {
        visible(s.drop_last()).push(s.last())
    }
}

/// The texts of the tokens `toks`, joined.
pub open spec fn texts(s: Seq<char>, toks: Seq<Token>) -> Seq<char>
    decreases toks.len(),
{
    if toks.len() == 0 {
        Seq::empty()
    } else {
        texts(s, toks.drop_last()) + token_text(s, toks.last())
    }
}

/// A token is as long as it can be: a word or an arrow starts at the start of
/// the source or after a delimiter, and a word ends before a delimiter (one that
/// does not turn it into an arrow).
pub open spec fn token_maximal(s: Seq<char>, t: Token) -> bool {
    let text = token_text(s, t);
    ||| text.len() == 1 && is_punct(text[0])
    ||| {
        &&& (t.span.start == 0 || is_delimiter(s[t.span.start - 1]))
        &&& (text == seq!['-', '>'] || {
            &&& t.span.end < s.len()
            &&& is_delimiter(s[t.span.end as int])
            &&& !(text == seq!['-'] && s[t.span.end as int] == '>')
        })
    }
}

/// What has been read so far, and how it is split.
spec fn lex_cover(s: Seq<char>, n: int, st: LexState) -> bool {
    &&& texts(s, st.tokens) + (match st.token_start {
        Some((cs, bs)) => s.subrange(cs, n),
        None => Seq::empty(),
    }) == visible(s.take(n))
    &&& (st.token_start is None <==> (n == 0 || is_delimiter(s[n - 1])))
    &&& (st.token_start matches Some((cs, bs)) ==> {
        &&& 0 <= cs < n
        &&& (cs == 0 || is_delimiter(s[cs - 1]))
        &&& forall|j: int| cs <= j < n ==> !is_delimiter(#[trigger] s[j])
    })
    &&& forall|k: int| 0 <= k < st.tokens.len() ==> token_maximal(s, #[trigger] st.tokens[k])
}

proof fn lemma_texts_push(s: Seq<char>, toks: Seq<Token>, t: Token)
    ensures
        texts(s, toks.push(t)) == texts(s, toks) + token_text(s, t),
{
    assert(toks.push(t).drop_last() =~= toks);
}

proof fn lemma_maximal_push(s: Seq<char>, toks: Seq<Token>, t: Token)
    requires
        forall|k: int| 0 <= k < toks.len() ==> token_maximal(s, #[trigger] toks[k]),
        token_maximal(s, t),
    ensures
        forall|k: int| 0 <= k < toks.push(t).len() ==> token_maximal(s, #[trigger] toks.push(t)[k]),
{
    assert forall|k: int| 0 <= k < toks.push(t).len() implies token_maximal(s, #[trigger] toks.push(t)[k]) by {
        if k < toks.len() {
            assert(toks.push(t)[k] == toks[k]);
        }
    }
}

#[verifier::rlimit(60)]
#[verifier::spinoff_prover]
proof fn lemma_lex_cover(s: Seq<char>, n: nat)
    requires
        n <= s.len(),
        byte_len(s) < usize::MAX,
    ensures
        lex_cover(s, n as int, lex_prefix(s, n)),
    decreases n,
{
    lemma_lex_bounds(s, n);
    if n == 0 {
        assert(s.take(0) =~= Seq::<char>::empty());
        assert(texts(s, Seq::<Token>::empty()) =~= Seq::<char>::empty());
        assert(visible(Seq::<char>::empty()) =~= Seq::<char>::empty());
    } else {
        let i = n - 1;
        let st = lex_prefix(s, i as nat);
        lemma_lex_cover(s, i as nat);
        lemma_lex_bounds(s, i as nat);
        lemma_byte_len_subrange(s, i, s.len() as int);
        assert(s.take(s.len() as int) =~= s);
        let c = s[i];
        assert(s.take(n as int).drop_last() =~= s.take(i));
        assert(s.take(n as int).last() == c);
        let v0 = visible(s.take(i));
        let pend = match st.token_start {
            Some((cs, bs)) => s.subrange(cs, i),
            None => Seq::empty(),
        };
        assert(texts(s, st.tokens) + pend == v0);
        if is_delimiter(c) {
            if crate::lexer::completes_arrow(s, st, i) {
                let (cs, bs) = st.token_start->0;
                let t = crate::lexer::arrow_token(st, cs, bs, i);
                assert(token_text(s, t) =~= seq!['-', '>']);
                lemma_texts_push(s, st.tokens, t);
                assert(s.subrange(cs, n as int) =~= s.subrange(cs, i).push(c));
                assert(texts(s, st.tokens.push(t)) =~= visible(s.take(n as int)));
                lemma_maximal_push(s, st.tokens, t);
            } else {
                let st1 = match st.token_start {
                    Some((cs, bs)) => {
                        let t = crate::lexer::word_token(s, st, cs, bs, i);
                        assert(token_text(s, t) =~= s.subrange(cs, i));
                        lemma_texts_push(s, st.tokens, t);
                        if token_text(s, t) =~= seq!['-', '>'] {
                            assert(token_text(s, t)[1] == s[cs + 1]);
                        }
                        if token_text(s, t).len() == 1 && is_punct(token_text(s, t)[0]) {
                            assert(token_text(s, t)[0] == s[cs]);
                        }
                        if token_text(s, t) == seq!['-'] && c == '>' {
                            assert(token_text(s, t)[0] == s[cs]);
                        }
                        lemma_maximal_push(s, st.tokens, t);
                        LexState { tokens: st.tokens.push(t), token_start: None, ..st }
                    },
                    None => st,
                };
                assert(texts(s, st1.tokens) == v0);
                if !crate::token::is_white_space(c) {
                    let t = crate::lexer::punct_token(s, st1, i);
                    assert(token_text(s, t) =~= seq![c]);
                    lemma_texts_push(s, st1.tokens, t);
                    lemma_maximal_push(s, st1.tokens, t);
                    assert(texts(s, st1.tokens.push(t)) =~= visible(s.take(n as int)));
                }
            }
        } else {
            match st.token_start {
                Some((cs, bs)) => {
                    assert(s.subrange(cs, n as int) =~= s.subrange(cs, i).push(c));
                },
                None => {
                    assert(s.subrange(i, n as int) =~= seq![c]);
                },
            }
            assert(texts(s, st.tokens) + (match lex_prefix(s, n).token_start {
                Some((cs, bs)) => s.subrange(cs, n as int),
                None => Seq::empty(),
            }) =~= visible(s.take(n as int)));
        }
    }
}

/// The tokens of a source that ends with a delimiter (or is empty) hold, joined
/// in order, exactly its characters that are not white space; and every token
/// is a punctuation character, the arrow, or a maximal word. So the tokens are
/// the delimiters other than white space and the maximal words, in order, with
/// `-` followed by `>` read as one arrow.
pub proof fn lemma_tokenize_covers(s: Seq<char>)
    requires
        byte_len(s) < usize::MAX,
    ensures
        forall|k: int| 0 <= k < tokenize(s).len() ==> token_maximal(s, #[trigger] tokenize(s)[k]),
        (s.len() == 0 || is_delimiter(s.last())) ==> texts(s, tokenize(s)) == visible(s),
{
    lemma_lex_cover(s, s.len());
    assert(s.take(s.len() as int) =~= s);
    if s.len() == 0 || is_delimiter(s.last()) {
        assert(texts(s, tokenize(s)) + Seq::<char>::empty() =~= texts(s, tokenize(s)));
    }
}

} // verus!
