//! Properties that span the lexer, the parser and the generator.
use vstd::prelude::*;
use crate::ast::ArgModel;
use crate::ast::FunctionModel;
use crate::ast::InterfaceModel;
use crate::lexer::find_start;
use crate::lexer::lemma_find_start;
use crate::lexer::same_start;
use crate::lexer::tokenize;
use crate::lexer::text_bytes;
use crate::lexer_laws::lemma_tokenize_placed;
use crate::lexer_laws::lemma_same_line_columns;
use crate::lexer_laws::token_placed;
use crate::parser::spec_arg;
use crate::parser::spec_args_rest;
use crate::parser::spec_argument_list;
use crate::parser::spec_file_from;
use crate::parser::spec_function;
use crate::parser::spec_functions;
use crate::parser::spec_interface;
use crate::parser::spec_top_level;
use crate::text::byte_len;
use crate::backend::rust::function_supported;
use crate::backend::rust::interface_supported;
use crate::token::Token;
use crate::token::TokenTyDisc;
use crate::token::disc_of;
use crate::ast::TypeModel;
use crate::lexer::SpecParseError;
use crate::parser::spec_type;
use crate::parser::spec_primitive;
use crate::parser::tok_text;
use crate::token::has_uid_shape;
use crate::token::classify_word;
use crate::token::TokenTy;
use crate::token::uid_digits;
use crate::numeric::digits_value;
use crate::numeric::parse_unsigned;
use vstd::utf8::encode_utf8;
use vstd::utf8::encode_scalar;
use vstd::utf8::leading_byte_width_1;
use vstd::utf8::has_width_1_encoding;
use vstd::utf8::char_u32_cast;

verus! {

/// Every argument is of a primitive type.
pub open spec fn all_primitive(args: Seq<ArgModel>) -> bool {
    forall|k: int| 0 <= k < args.len() ==> (#[trigger] args[k]).1 is Primitive
}

/// No function has the number 0.
pub open spec fn all_numbered(fs: Seq<FunctionModel>) -> bool {
    forall|k: int| 0 <= k < fs.len() ==> (#[trigger] fs[k]).num != 0
}

/// What every parsed interface satisfies: its constructor takes primitive
/// arguments only, and its functions have non-zero numbers.
pub open spec fn well_shaped(i: InterfaceModel) -> bool {
    all_primitive(i.ctor) && all_numbered(i.f)
}

proof fn lemma_args_rest_primitive(
    src: Seq<char>,
    toks: Seq<Token>,
    pos: int,
    acc: Seq<ArgModel>,
)
    requires
        all_primitive(acc),
    ensures
        spec_args_rest(src, toks, pos, false, acc).0 matches Ok(r) ==> all_primitive(r),
    decreases toks.len() - pos,
{
    let (r0, p) = crate::lexer::spec_expect_one(
        toks,
        pos,
        seq![crate::token::TokenTyDisc::Comma, crate::token::TokenTyDisc::RParen],
    );
    if let Ok(tok) = r0 {
        if !(tok.ty is RParen) {
            if let (Ok(Some(a)), p2) = spec_arg(src, toks, p, false) {
                if pos < p2 <= toks.len() {
                    assert(all_primitive(acc.push(a))) by {
                        assert forall|k: int| 0 <= k < acc.push(a).len() implies (#[trigger] acc.push(
                            a,
                        )[k]).1 is Primitive by {
                            if k < acc.len() {
                                assert(acc.push(a)[k] == acc[k]);
                            }
                        }
                    }
                    lemma_args_rest_primitive(src, toks, p2, acc.push(a));
                }
            }
        }
    }
}

proof fn lemma_argument_list_primitive(src: Seq<char>, toks: Seq<Token>, pos: int)
    ensures
        spec_argument_list(src, toks, pos, false).0 matches Ok(r) ==> all_primitive(r),
{
    let (r0, p) = crate::lexer::spec_expect(toks, pos, crate::token::TokenTyDisc::LParen);
    if let Ok(_) = r0 {
        if let (Ok(Some(a)), p1) = spec_arg(src, toks, p, false) {
            lemma_args_rest_primitive(src, toks, p1, seq![a]);
        }
    }
}

proof fn lemma_functions_numbered(src: Seq<char>, toks: Seq<Token>, pos: int, acc: Seq<FunctionModel>)
    requires
        all_numbered(acc),
    ensures
        spec_functions(src, toks, pos, acc).0 matches Ok(r) ==> all_numbered(r),
    decreases toks.len() - pos,
{
    if 0 <= pos < toks.len() && crate::token::disc_of(toks[pos].ty) != crate::token::TokenTyDisc::RBrace {
        if let (Ok(f), p) = spec_function(src, toks, pos) {
            if pos < p <= toks.len() {
                assert(f.num != 0);
                assert(all_numbered(acc.push(f))) by {
                    assert forall|k: int| 0 <= k < acc.push(f).len() implies (#[trigger] acc.push(
                        f,
                    )[k]).num != 0 by {
                        if k < acc.len() {
                            assert(acc.push(f)[k] == acc[k]);
                        }
                    }
                }
                lemma_functions_numbered(src, toks, p, acc.push(f));
            }
        }
    }
}

proof fn lemma_interface_shape(src: Seq<char>, toks: Seq<Token>, pos: int)
    ensures
        spec_interface(src, toks, pos).0 matches Ok(i) ==> well_shaped(i),
{
    let (r0, p0) = crate::lexer::spec_expect(toks, pos, crate::token::TokenTyDisc::Ident);
    lemma_argument_list_primitive(src, toks, p0);
    let (r1, p1) = spec_argument_list(src, toks, p0, false);
    let (r2, p2) = crate::lexer::spec_expect(toks, p1, crate::token::TokenTyDisc::At);
    let (r3, p3) = crate::lexer::spec_expect(toks, p2, crate::token::TokenTyDisc::Uid);
    let (r4, p4) = crate::lexer::spec_expect(toks, p3, crate::token::TokenTyDisc::LBrace);
    lemma_functions_numbered(src, toks, p4, Seq::empty());
}

proof fn lemma_file_from_shape(src: Seq<char>, toks: Seq<Token>, pos: int, acc: Seq<InterfaceModel>)
    requires
        forall|k: int| 0 <= k < acc.len() ==> well_shaped(#[trigger] acc[k]),
    ensures
        spec_file_from(src, toks, pos, acc).0 matches Ok(r) ==> forall|k: int|
            0 <= k < r.len() ==> well_shaped(#[trigger] r[k]),
    decreases toks.len() - pos,
{
    if 0 <= pos < toks.len() {
        let (r0, p) = crate::lexer::spec_expect(toks, pos, crate::token::TokenTyDisc::Interface);
        if let (Ok(i), p1) = spec_top_level(src, toks, pos) {
            lemma_interface_shape(src, toks, p);
            if pos < p1 <= toks.len() {
                assert forall|k: int| 0 <= k < acc.push(i).len() implies well_shaped(
                    #[trigger] acc.push(i)[k],
                ) by {
                    if k < acc.len() {
                        assert(acc.push(i)[k] == acc[k]);
                    }
                }
                lemma_file_from_shape(src, toks, p1, acc.push(i));
            }
        }
    }
}

/// Every interface that parses has a constructor with primitive arguments only
/// and functions with non-zero numbers; so its constructor struct can always
/// be generated.
pub proof fn lemma_parsed_interfaces_well_shaped(src: Seq<char>, toks: Seq<Token>, pos: int)
    ensures
        spec_file_from(src, toks, pos, Seq::empty()).0 matches Ok(r) ==> forall|k: int|
            0 <= k < r.len() ==> well_shaped(#[trigger] r[k]),
{
    lemma_file_from_shape(src, toks, pos, Seq::empty());
}

/// Bindings can be generated for a parsed interface exactly when none of its
/// functions takes or returns a range.
pub proof fn lemma_parsed_supported_without_ranges(src: Seq<char>, toks: Seq<Token>, pos: int)
    ensures
        spec_file_from(src, toks, pos, Seq::empty()).0 matches Ok(r) ==> forall|k: int|
            0 <= k < r.len() ==> (interface_supported(#[trigger] r[k]) <==> forall|j: int|
                0 <= j < r[k].f.len() ==> function_supported(#[trigger] r[k].f[j])),
{
    lemma_parsed_interfaces_well_shaped(src, toks, pos);
}

/// Looking a token's span up among the tokens of its source finds that very
/// token: no two tokens start at the same line and column.
pub proof fn lemma_span_finds_its_token(s: Seq<char>, k: int)
    requires
        byte_len(s) < usize::MAX,
        0 <= k < tokenize(s).len(),
    ensures
        find_start(tokenize(s), tokenize(s)[k].span, 0) == Some(k),
{
    let toks = tokenize(s);
    lemma_tokenize_placed(s);
    lemma_find_start(toks, toks[k].span, 0);
    assert forall|j: int| 0 <= j < k implies !same_start(#[trigger] toks[j].span, toks[k].span) by {
        assert(token_placed(s, toks[j]));
        if toks[j].span.line == toks[k].span.line {
            lemma_same_line_columns(s, toks, j, k);
            let t = toks[j];
            crate::text::lemma_byte_len_subrange(s, t.span.start as int, t.span.end as int);
            assert(s.subrange(t.span.start as int, t.span.end as int) =~= s.subrange(
                t.span.start as int,
                t.span.start + 1,
            ) + s.subrange(t.span.start + 1, t.span.end as int));
            crate::text::lemma_byte_len_concat(
                s.subrange(t.span.start as int, t.span.start + 1),
                s.subrange(t.span.start + 1, t.span.end as int),
            );
            assert(s.subrange(t.span.start as int, t.span.start + 1) =~= seq![s[t.span.start as int]]);
            crate::text::lemma_byte_len_single(s[t.span.start as int]);
            crate::text::lemma_char_width_positive(s[t.span.start as int]);
            assert(text_bytes(s, t) >= 1);
        }
    }
    match find_start(toks, toks[k].span, 0) {
        Some(m) => {
            if m > k {
                assert(!same_start(toks[k].span, toks[k].span));
            }
        },
        None => {
            assert(!same_start(toks[k].span, toks[k].span));
        },
    }
}

/// The uid that a word's characters give: a uid-shaped word whose digits read
/// as hexadecimal.
pub open spec fn uid_by_chars(w: Seq<char>) -> Option<nat> {
    if has_uid_shape(w) {
        parse_unsigned(uid_digits(w), 16, u128::MAX as nat)
    } else {
        None
    }
}

/// A byte string of the shape of a uid: 27 bytes with `-` at 4, 9 and 14 and
/// none at 0.
pub open spec fn has_uid_byte_shape(b: Seq<u8>) -> bool {
    &&& b.len() == 27
    &&& b[4] == 45
    &&& b[9] == 45
    &&& b[14] == 45
    &&& b[0] != 45
}

/// The bytes of a uid-shaped byte string without its dashes, each read as the
/// character of the same number.
pub open spec fn uid_byte_digits(b: Seq<u8>) -> Seq<char> {
    (b.subrange(0, 4) + b.subrange(5, 9) + b.subrange(10, 14) + b.subrange(15, 27)).map_values(
        |x: u8| x as char,
    )
}

/// The uid that a word's UTF-8 bytes give: 27 bytes with dashes at bytes 4, 9
/// and 14, and the other bytes reading as hexadecimal.
pub open spec fn uid_by_bytes(b: Seq<u8>) -> Option<nat> {
    if has_uid_byte_shape(b) {
        parse_unsigned(uid_byte_digits(b), 16, u128::MAX as nat)
    } else {
        None
    }
}

/// Digits that `digits_value` accepts in a radix of at most 36 are ASCII.
proof fn lemma_digits_value_ascii(ds: Seq<char>, radix: nat)
    requires
        radix <= 36,
        digits_value(ds, radix) is Some,
    ensures
        forall|i: int| 0 <= i < ds.len() ==> (#[trigger] ds[i] as u32) < 128,
    decreases ds.len(),
{
    if ds.len() > 0 {
        lemma_digits_value_ascii(ds.drop_last(), radix);
        assert forall|i: int| 0 <= i < ds.len() implies (#[trigger] ds[i] as u32) < 128 by {
            if i < ds.len() - 1 {
                assert(ds[i] == ds.drop_last()[i]);
            }
        }
    }
}

/// A string that `parse_unsigned` accepts in a radix of at most 36 is ASCII.
proof fn lemma_parse_unsigned_ascii(s: Seq<char>, radix: nat, max: nat)
    requires
        radix <= 36,
        parse_unsigned(s, radix, max) is Some,
    ensures
        forall|i: int| 0 <= i < s.len() ==> (#[trigger] s[i] as u32) < 128,
{
    if s.len() > 0 && s[0] == '+' {
        lemma_digits_value_ascii(s.drop_first(), radix);
        assert forall|i: int| 0 <= i < s.len() implies (#[trigger] s[i] as u32) < 128 by {
            if i > 0 {
                assert(s[i] == s.drop_first()[i - 1]);
            }
        }
    } else {
        lemma_digits_value_ascii(s, radix);
    }
}

/// A word of ASCII characters is encoded one byte per character, each byte the
/// character's number.
proof fn lemma_encode_ascii(w: Seq<char>)
    requires
        forall|i: int| 0 <= i < w.len() ==> (#[trigger] w[i] as u32) < 128,
    ensures
        encode_utf8(w).len() == w.len(),
        forall|i: int| 0 <= i < w.len() ==> #[trigger] encode_utf8(w)[i] as u32 == w[i] as u32,
    decreases w.len(),
{
    if w.len() > 0 {
        let v = w[0] as u32;
        assert(v < 128);
        assert(leading_byte_width_1(v) as u32 == v) by (bit_vector)
            requires
                v < 128,
        ;
        assert forall|i: int| 0 <= i < w.len() - 1 implies (#[trigger] w.drop_first()[i] as u32)
            < 128 by {
            assert(w.drop_first()[i] == w[i + 1]);
        }
        lemma_encode_ascii(w.drop_first());
        assert(has_width_1_encoding(v));
        assert(encode_scalar(v) =~= seq![leading_byte_width_1(v)]);
        assert(encode_utf8(w) =~= encode_scalar(v) + encode_utf8(w.drop_first()));
        assert forall|i: int| 0 <= i < w.len() implies #[trigger] encode_utf8(w)[i] as u32 == w[i] as u32 by {
            if i > 0 {
                assert(w.drop_first()[i - 1] == w[i]);
            }
        }
    }
}

/// A word with a character outside ASCII has a byte of 128 or more.
proof fn lemma_encode_high_byte(w: Seq<char>, k: int)
    requires
        0 <= k < w.len(),
        (w[k] as u32) >= 128,
    ensures
        exists|j: int| 0 <= j < encode_utf8(w).len() && #[trigger] encode_utf8(w)[j] >= 128,
    decreases w.len(),
{
    let head = encode_scalar(w[0] as u32);
    assert(encode_utf8(w) == head + encode_utf8(w.drop_first()));
    if k == 0 {
        let v = w[0] as u32;
        assert(forall|x: u8| #![trigger (0xC0u8 | x)] (0xC0u8 | x) >= 128u8) by (bit_vector);
        assert(forall|x: u8| #![trigger (0xE0u8 | x)] (0xE0u8 | x) >= 128u8) by (bit_vector);
        assert(forall|x: u8| #![trigger (0xF0u8 | x)] (0xF0u8 | x) >= 128u8) by (bit_vector);
        assert(head[0] >= 128);
        assert(encode_utf8(w)[0] >= 128);
    } else {
        assert(w.drop_first()[k - 1] == w[k]);
        lemma_encode_high_byte(w.drop_first(), k - 1);
        let j = choose|j: int|
            0 <= j < encode_utf8(w.drop_first()).len() && #[trigger] encode_utf8(
                w.drop_first(),
            )[j] >= 128;
        assert(encode_utf8(w)[head.len() + j] == encode_utf8(w.drop_first())[j]);
    }
}

/// The uid rule reads the same on a word's characters as on its UTF-8 bytes:
/// 27 bytes with dashes at bytes 4, 9 and 14 whose other bytes read as
/// hexadecimal are the same word as 27 characters with dashes at 4, 9 and 14
/// whose other characters read as hexadecimal, with the same value; a word
/// outside ASCII is no uid either way. So a word that is neither a number nor
/// a keyword is the uid its bytes give, if they give one, and an identifier
/// otherwise.
pub proof fn lemma_uid_by_bytes(w: Seq<char>)
    ensures
        uid_by_bytes(encode_utf8(w)) == uid_by_chars(w),
        parse_unsigned(w, 10, u32::MAX as nat) is None && w != "interface"@ && w != "struct"@
            && w != "func"@ && w != "factory"@ && w != "->"@ ==> classify_word(w) == match uid_by_bytes(
            encode_utf8(w),
        ) {
            Some(n) => TokenTy::Uid(n as u128),
            None => TokenTy::Ident,
        },
{
    let b = encode_utf8(w);
    if forall|i: int| 0 <= i < w.len() ==> (#[trigger] w[i] as u32) < 128 {
        lemma_encode_ascii(w);
        assert forall|i: int| 0 <= i < w.len() implies (#[trigger] b[i]) as char == w[i] by {
            assert(b[i] as u32 == w[i] as u32);
            assert((b[i] as char) as u32 == b[i] as u32);
            assert(((b[i] as char) as u32) as char == b[i] as char);
            char_u32_cast(w[i], w[i] as u32);
        }
        if w.len() == 27 {
            assert((b[4] == 45) == (w[4] == '-'));
            assert((b[9] == 45) == (w[9] == '-'));
            assert((b[14] == 45) == (w[14] == '-'));
            assert((b[0] == 45) == (w[0] == '-'));
            assert(uid_byte_digits(b) =~= uid_digits(w));
        }
    } else {
        let k = choose|k: int| 0 <= k < w.len() && !((#[trigger] w[k] as u32) < 128);
        if has_uid_shape(w) {
            let d = uid_digits(w);
            let idx = if k < 4 {
                k
            } else if k < 9 {
                k - 1
            } else if k < 14 {
                k - 2
            } else {
                k - 3
            };
            assert(d[idx] == w[k]);
            if parse_unsigned(d, 16, u128::MAX as nat) is Some {
                lemma_parse_unsigned_ascii(d, 16, u128::MAX as nat);
                assert((d[idx] as u32) < 128);
            }
        }
        lemma_encode_high_byte(w, k);
        let j = choose|j: int| 0 <= j < b.len() && #[trigger] b[j] >= 128;
        if has_uid_byte_shape(b) {
            let d = uid_byte_digits(b);
            let idx = if j < 4 {
                j
            } else if j < 9 {
                j - 1
            } else if j < 14 {
                j - 2
            } else {
                j - 3
            };
            assert(d[idx] == b[j] as char);
            if parse_unsigned(d, 16, u128::MAX as nat) is Some {
                lemma_parse_unsigned_ascii(d, 16, u128::MAX as nat);
                assert((d[idx] as u32) < 128);
            }
        }
    }
}

/// A slice type `[ word ]` has as element type the primitive type that the
/// word names on its own: where `word` alone reads as a primitive type `p`,
/// `[ word ]` reads as a slice of `p`, three tokens on; where the word names no
/// primitive type, the slice is refused with the same error.
pub proof fn lemma_slice_type_element(src: Seq<char>, toks: Seq<Token>, pos: int)
    requires
        0 <= pos,
        pos + 2 < toks.len(),
        disc_of(toks[pos].ty) == TokenTyDisc::LSquare,
        disc_of(toks[pos + 1].ty) == TokenTyDisc::Ident,
        disc_of(toks[pos + 2].ty) == TokenTyDisc::RSquare,
    ensures
        spec_type(src, toks, pos + 1).0 matches Ok(TypeModel::Primitive(p)) ==> spec_type(
            src,
            toks,
            pos,
        ) == (Ok::<TypeModel, SpecParseError>(TypeModel::Slice(p)), pos + 3),
        spec_primitive(tok_text(src, toks[pos + 1]), toks[pos + 1].span) matches Ok(p)
            ==> spec_type(src, toks, pos) == (Ok::<TypeModel, SpecParseError>(TypeModel::Slice(p)), pos + 3),
        spec_primitive(tok_text(src, toks[pos + 1]), toks[pos + 1].span) matches Err(e)
            ==> spec_type(src, toks, pos) == (Err::<TypeModel, SpecParseError>(e), pos + 3),
{
    let t = toks[pos + 1];
    assert(seq![TokenTyDisc::Ident, TokenTyDisc::LSquare].contains(TokenTyDisc::LSquare)) by {
        assert(seq![TokenTyDisc::Ident, TokenTyDisc::LSquare][1] == TokenTyDisc::LSquare);
    }
    assert(seq![TokenTyDisc::Ident, TokenTyDisc::LSquare].contains(TokenTyDisc::Ident)) by {
        assert(seq![TokenTyDisc::Ident, TokenTyDisc::LSquare][0] == TokenTyDisc::Ident);
    }
    assert(seq![TokenTyDisc::Ident].contains(TokenTyDisc::Ident)) by {
        assert(seq![TokenTyDisc::Ident][0] == TokenTyDisc::Ident);
    }
    assert(seq![TokenTyDisc::RSquare].contains(TokenTyDisc::RSquare)) by {
        assert(seq![TokenTyDisc::RSquare][0] == TokenTyDisc::RSquare);
    }
    assert(!(toks[pos].ty is Ident));
    assert(t.ty is Ident);
}

} // verus!
