//! The grammar of interface description files, stated over the token
//! sequence, and the recursive-descent parser that follows it.
use vstd::prelude::*;
use crate::ast::ArgModel;
use crate::ast::ArgumentList;
use crate::ast::File;
use crate::ast::Function;
use crate::ast::FunctionModel;
use crate::ast::Interface;
use crate::ast::InterfaceModel;
use crate::ast::PrimitiveType;
use crate::ast::TopLevelStatement;
use crate::ast::Type;
use crate::ast::TypeModel;
use crate::ast::arg_view;
use crate::lexer::ParseContext;
use crate::lexer::ParseError;
use crate::lexer::SpecParseError;
use crate::lexer::Step;
use crate::lexer::outcome;
use crate::lexer::token_in_source;
use crate::lexer::spec_expect;
use crate::lexer::spec_expect_one;
use crate::text::str_equal;
use crate::token::Span;
use crate::token::Token;
use crate::token::TokenTy;
use crate::token::TokenTyDisc;
use crate::token::disc_of;

verus! {

/// The text of a token.
pub open spec fn tok_text(src: Seq<char>, t: Token) -> Seq<char> {
    src.subrange(t.span.start as int, t.span.end as int)
}

/// The outcome of a parse, as a value.
pub open spec fn parsed<T: View>(r: Result<T, ParseError>) -> Result<T::V, SpecParseError> {
    match r {
        Ok(v) => Ok(v@),
        Err(e) => Err(e@),
    }
}

/// The primitive type a word names, or the error at `span`.
pub open spec fn spec_primitive(text: Seq<char>, span: Span) -> Result<PrimitiveType, SpecParseError> {
    if text == "int"@ {
        Ok(PrimitiveType::Int)
    } else if text == "uint"@ {
        Ok(PrimitiveType::Uint)
    } else if text == "bool"@ {
        Ok(PrimitiveType::Bool)
    } else if text == "addr"@ {
        Ok(PrimitiveType::Addr)
    } else if text == "byte"@ {
        Ok(PrimitiveType::Byte)
    } else if text == "proto"@ {
        Ok(PrimitiveType::Proto)
    } else {
        Err(SpecParseError::Syntax("expected primitive type"@, span))
    }
}

/// `< identifier >`: the identifier's token.
pub open spec fn spec_angled(toks: Seq<Token>, pos: int) -> Step<Token> {
    match spec_expect(toks, pos, TokenTyDisc::LAngle) {
        (Err(e), p) => (Err(e), p),
        (Ok(_), p) => match spec_expect(toks, p, TokenTyDisc::Ident) {
            (Err(e), p1) => (Err(e), p1),
            (Ok(t), p1) => match spec_expect(toks, p1, TokenTyDisc::RAngle) {
                (Err(e), p2) => (Err(e), p2),
                (Ok(_), p2) => (Ok(t), p2),
            },
        },
    }
}

/// A primitive type named by the token `t`, read up to `p`.
pub open spec fn with_primitive(src: Seq<char>, t: Token, p: int) -> Step<PrimitiveType> {
    match spec_primitive(tok_text(src, t), t.span) {
        Ok(pt) => (Ok(pt), p),
        Err(e) => (Err(e), p),
    }
}

/// A type: `handle<name>`, `string`, `range<primitive>`, a primitive type, or
/// `[primitive]`.
pub open spec fn spec_type(src: Seq<char>, toks: Seq<Token>, pos: int) -> Step<TypeModel> {
    match spec_expect_one(toks, pos, seq![TokenTyDisc::Ident, TokenTyDisc::LSquare]) {
        (Err(e), p0) => (Err(e), p0),
        (Ok(tok), p0) => if tok.ty is Ident {
            let text = tok_text(src, tok);
            if text == "handle"@ {
                match spec_angled(toks, p0) {
                    (Err(e), p) => (Err(e), p),
                    (Ok(t), p) => (Ok(TypeModel::Handle(tok_text(src, t))), p),
                }
            } else if text == "string"@ {
                (Ok(TypeModel::String), p0)
            } else if text == "range"@ {
                match spec_angled(toks, p0) {
                    (Err(e), p) => (Err(e), p),
                    (Ok(t), p) => match with_primitive(src, t, p) {
                        (Ok(pt), p1) => (Ok(TypeModel::Range(pt)), p1),
                        (Err(e), p1) => (Err(e), p1),
                    },
                }
            } else {
                match with_primitive(src, tok, p0) {
                    (Ok(pt), p1) => (Ok(TypeModel::Primitive(pt)), p1),
                    (Err(e), p1) => (Err(e), p1),
                }
            }
        } else {
            match spec_expect(toks, p0, TokenTyDisc::Ident) {
                (Err(e), p) => (Err(e), p),
                (Ok(t), p) => match spec_expect(toks, p, TokenTyDisc::RSquare) {
                    (Err(e), p1) => (Err(e), p1),
                    (Ok(_), p1) => match with_primitive(src, t, p1) {
                        (Ok(pt), p2) => (Ok(TypeModel::Slice(pt)), p2),
                        (Err(e), p2) => (Err(e), p2),
                    },
                },
            }
        },
    }
}

/// One argument `name: type` (with a primitive type unless `complex`), or the
/// closing parenthesis, read as `None`.
pub open spec fn spec_arg(src: Seq<char>, toks: Seq<Token>, pos: int, complex: bool) -> Step<
    Option<ArgModel>,
> {
    match spec_expect_one(toks, pos, seq![TokenTyDisc::Ident, TokenTyDisc::RParen]) {
        (Err(e), p) => (Err(e), p),
        (Ok(tok), p) => if tok.ty is RParen {
            (Ok(None), p)
        } else {
            let name = tok_text(src, tok);
            match spec_expect(toks, p, TokenTyDisc::Colon) {
                (Err(e), p1) => (Err(e), p1),
                (Ok(_), p1) => if complex {
                    match spec_type(src, toks, p1) {
                        (Ok(t), p2) => (Ok(Some((name, t))), p2),
                        (Err(e), p2) => (Err(e), p2),
                    }
                } else {
                    match spec_expect(toks, p1, TokenTyDisc::Ident) {
                        (Err(e), p2) => (Err(e), p2),
                        (Ok(t), p2) => match with_primitive(src, t, p2) {
                            (Ok(pt), p3) => (Ok(Some((name, TypeModel::Primitive(pt)))), p3),
                            (Err(e), p3) => (Err(e), p3),
                        },
                    }
                },
            }
        },
    }
}

/// The rest of an argument list after its first argument: `, argument` again
/// and again, up to `)` (which may follow a comma).
pub open spec fn spec_args_rest(
    src: Seq<char>,
    toks: Seq<Token>,
    pos: int,
    complex: bool,
    acc: Seq<ArgModel>,
) -> Step<Seq<ArgModel>>
    decreases toks.len() - pos,
{
    match spec_expect_one(toks, pos, seq![TokenTyDisc::Comma, TokenTyDisc::RParen]) {
        (Err(e), p) => (Err(e), p),
        (Ok(tok), p) => if tok.ty is RParen {
            (Ok(acc), p)
        } else {
            match spec_arg(src, toks, p, complex) {
                (Err(e), p2) => (Err(e), p2),
                (Ok(None), p2) => (Ok(acc), p2),
                (Ok(Some(a)), p2) => if pos < p2 <= toks.len() {
                    spec_args_rest(src, toks, p2, complex, acc.push(a))
                } else {
                    (Err(SpecParseError::EndOfInput), p2)
                },
            }
        },
    }
}

/// `( arguments )`.
pub open spec fn spec_argument_list(src: Seq<char>, toks: Seq<Token>, pos: int, complex: bool) -> Step<
    Seq<ArgModel>,
> {
    match spec_expect(toks, pos, TokenTyDisc::LParen) {
        (Err(e), p) => (Err(e), p),
        (Ok(_), p) => match spec_arg(src, toks, p, complex) {
            (Err(e), p1) => (Err(e), p1),
            (Ok(None), p1) => (Ok(Seq::empty()), p1),
            (Ok(Some(a)), p1) => spec_args_rest(src, toks, p1, complex, seq![a]),
        },
    }
}

/// `func @number name(arguments)`, then `-> type` if an arrow follows.
pub open spec fn spec_function(src: Seq<char>, toks: Seq<Token>, pos: int) -> Step<FunctionModel> {
    match spec_expect_one(toks, pos, seq![TokenTyDisc::Function, TokenTyDisc::Factory]) {
        (Err(e), p0) => (Err(e), p0),
        (Ok(_), p0) => match spec_expect(toks, p0, TokenTyDisc::At) {
            (Err(e), p1) => (Err(e), p1),
            (Ok(_), p1) => match spec_expect(toks, p1, TokenTyDisc::Numeric) {
                (Err(e), p2) => (Err(e), p2),
                (Ok(tid), p2) => if tid.ty->Numeric_0 == 0 {
                    (Err(SpecParseError::Syntax("function id must not be zero"@, tid.span)), p2)
                } else {
                    match spec_expect(toks, p2, TokenTyDisc::Ident) {
                        (Err(e), p3) => (Err(e), p3),
                        (Ok(nt), p3) => match spec_argument_list(src, toks, p3, true) {
                            (Err(e), p4) => (Err(e), p4),
                            (Ok(args), p4) => if 0 <= p4 < toks.len() && toks[p4].ty is Arrow {
                                match spec_expect(toks, p4, TokenTyDisc::Arrow) {
                                    (Err(e), p5) => (Err(e), p5),
                                    (Ok(_), p5) => match spec_type(src, toks, p5) {
                                        (Err(e), p6) => (Err(e), p6),
                                        (Ok(t), p6) => (
                                            Ok(
                                                FunctionModel {
                                                    args,
                                                    ret: Some(t),
                                                    name: tok_text(src, nt),
                                                    num: tid.ty->Numeric_0,
                                                },
                                            ),
                                            p6,
                                        ),
                                    },
                                }
                            } else {
                                (
                                    Ok(
                                        FunctionModel {
                                            args,
                                            ret: None,
                                            name: tok_text(src, nt),
                                            num: tid.ty->Numeric_0,
                                        },
                                    ),
                                    p4,
                                )
                            },
                        },
                    }
                },
            },
        },
    }
}

/// Functions, one after the other, up to a `}` or the end of the tokens.
pub open spec fn spec_functions(
    src: Seq<char>,
    toks: Seq<Token>,
    pos: int,
    acc: Seq<FunctionModel>,
) -> Step<Seq<FunctionModel>>
    decreases toks.len() - pos,
{
    if 0 <= pos < toks.len() && disc_of(toks[pos].ty) != TokenTyDisc::RBrace {
        match spec_function(src, toks, pos) {
            (Err(e), p) => (Err(e), p),
            (Ok(f), p) => if pos < p <= toks.len() {
                spec_functions(src, toks, p, acc.push(f))
            } else {
                (Err(SpecParseError::EndOfInput), p)
            },
        }
    } else {
        (Ok(acc), pos)
    }
}

/// `name(constructor arguments) @uid { functions }`, after `interface`.
pub open spec fn spec_interface(src: Seq<char>, toks: Seq<Token>, pos: int) -> Step<InterfaceModel> {
    match spec_expect(toks, pos, TokenTyDisc::Ident) {
        (Err(e), p0) => (Err(e), p0),
        (Ok(it), p0) => match spec_argument_list(src, toks, p0, false) {
            (Err(e), p1) => (Err(e), p1),
            (Ok(ctor), p1) => match spec_expect(toks, p1, TokenTyDisc::At) {
                (Err(e), p2) => (Err(e), p2),
                (Ok(_), p2) => match spec_expect(toks, p2, TokenTyDisc::Uid) {
                    (Err(e), p3) => (Err(e), p3),
                    (Ok(ut), p3) => match spec_expect(toks, p3, TokenTyDisc::LBrace) {
                        (Err(e), p4) => (Err(e), p4),
                        (Ok(_), p4) => finish_interface(
                            toks,
                            tok_text(src, it),
                            ctor,
                            ut.ty->Uid_0,
                            spec_functions(src, toks, p4, Seq::empty()),
                        ),
                    },
                },
            },
        },
    }
}

/// The end of an interface, once its functions `fs` are read: `}`.
pub open spec fn finish_interface(
    toks: Seq<Token>,
    ident: Seq<char>,
    ctor: Seq<ArgModel>,
    uid: u128,
    fs: Step<Seq<FunctionModel>>,
) -> Step<InterfaceModel> {
    match fs {
        (Err(e), p5) => (Err(e), p5),
        (Ok(f), p5) => match spec_expect(toks, p5, TokenTyDisc::RBrace) {
            (Err(e), p6) => (Err(e), p6),
            (Ok(_), p6) => (Ok(InterfaceModel { ident, ctor, uid, f }), p6),
        },
    }
}

/// `interface` and an interface.
pub open spec fn spec_top_level(src: Seq<char>, toks: Seq<Token>, pos: int) -> Step<InterfaceModel> {
    match spec_expect(toks, pos, TokenTyDisc::Interface) {
        (Err(e), p) => (Err(e), p),
        (Ok(_), p) => spec_interface(src, toks, p),
    }
}

/// Top-level statements up to the end of the tokens.
pub open spec fn spec_file_from(
    src: Seq<char>,
    toks: Seq<Token>,
    pos: int,
    acc: Seq<InterfaceModel>,
) -> Step<Seq<InterfaceModel>>
    decreases toks.len() - pos,
{
    if 0 <= pos < toks.len() {
        match spec_top_level(src, toks, pos) {
            (Err(e), p) => (Err(e), p),
            (Ok(i), p) => if pos < p <= toks.len() {
                spec_file_from(src, toks, p, acc.push(i))
            } else {
                (Err(SpecParseError::EndOfInput), p)
            },
        }
    } else {
        (Ok(acc), pos)
    }
}

/// A whole file, from its first token.
pub open spec fn spec_file(src: Seq<char>, toks: Seq<Token>) -> Step<Seq<InterfaceModel>> {
    spec_file_from(src, toks, 0, Seq::empty())
}

/// A parsing step on `old` that left `new`: the same tokens, still well formed,
/// the position not moved back, and moved on if it succeeded.
pub open spec fn stepped(old: ParseContext, new: ParseContext, ok: bool) -> bool {
    &&& new.wf()
    &&& new.same_tokens(&old)
    &&& old.pos() <= new.pos()
    &&& ok ==> old.pos() < new.pos()
}

impl PrimitiveType {
    /// The primitive type that `string` names; `span` locates the error.
    pub fn from(span: Span, string: &str) -> (r: Result<PrimitiveType, ParseError>)
        ensures
            match r {
                Ok(p) => spec_primitive(string@, span) == Ok::<PrimitiveType, SpecParseError>(p),
                Err(e) => spec_primitive(string@, span) == Err::<PrimitiveType, SpecParseError>(e@),
            },
    {
        if str_equal(string, "int") {
            Ok(PrimitiveType::Int)
        } else if str_equal(string, "uint") {
            Ok(PrimitiveType::Uint)
        } else if str_equal(string, "bool") {
            Ok(PrimitiveType::Bool)
        } else if str_equal(string, "addr") {
            Ok(PrimitiveType::Addr)
        } else if str_equal(string, "byte") {
            Ok(PrimitiveType::Byte)
        } else if str_equal(string, "proto") {
            Ok(PrimitiveType::Proto)
        } else {
            Err(ParseError::Syntax { message: String::from_str("expected primitive type"), span })
        }
    }
}


/// Reads `< identifier >` and gives the identifier's token.
fn parse_angled(ctx: &mut ParseContext) -> (r: Result<Token, ParseError>)
    requires
        old(ctx).wf(),
    ensures
        stepped(*old(ctx), *final(ctx), r is Ok),
        (outcome(r), final(ctx).pos() as int) == spec_angled(old(ctx).tokens(), old(ctx).pos() as int),
        r matches Ok(t) ==> t.span.start <= t.span.end <= final(ctx).source().len(),
{
    ctx.expect(TokenTyDisc::LAngle)?;
    let tok = ctx.expect(TokenTyDisc::Ident)?;
    ctx.expect(TokenTyDisc::RAngle)?;
    Ok(tok)
}

impl Type {
    /// Reads a type.
    pub fn parse(ctx: &mut ParseContext) -> (r: Result<Type, ParseError>)
        requires
            old(ctx).wf(),
        ensures
            stepped(*old(ctx), *final(ctx), r is Ok),
            (parsed(r), final(ctx).pos() as int) == spec_type(
                old(ctx).source(),
                old(ctx).tokens(),
                old(ctx).pos() as int,
            ),
    {
        let tok = ctx.expect_one(&[TokenTyDisc::Ident, TokenTyDisc::LSquare])?;
        match tok.ty {
            TokenTy::Ident => {
                let text = ctx.text_of(tok.span);
                if str_equal(text.as_str(), "handle") {
                    let t = parse_angled(ctx)?;
                    Ok(Type::Handle(ctx.text_of(t.span)))
                } else if str_equal(text.as_str(), "string") {
                    Ok(Type::String)
                } else if str_equal(text.as_str(), "range") {
                    let t = parse_angled(ctx)?;
                    let name = ctx.text_of(t.span);
                    Ok(Type::Range(PrimitiveType::from(t.span, name.as_str())?))
                } else {
                    Ok(Type::Primitive(PrimitiveType::from(tok.span, text.as_str())?))
                }
            },
            _ => {
                let t = ctx.expect(TokenTyDisc::Ident)?;
                ctx.expect(TokenTyDisc::RSquare)?;
                let name = ctx.text_of(t.span);
                Ok(Type::Slice(PrimitiveType::from(t.span, name.as_str())?))
            },
        }
    }
}


/// The last token read is a closing parenthesis.
pub open spec fn closed_by_rparen(ctx: ParseContext) -> bool {
    &&& 1 <= ctx.pos() <= ctx.tokens().len()
    &&& ctx.tokens()[ctx.pos() - 1].ty is RParen
}

/// The outcome of reading one argument, as a value.
pub open spec fn parsed_arg(r: Result<Option<(String, Type)>, ParseError>) -> Result<
    Option<ArgModel>,
    SpecParseError,
> {
    match r {
        Ok(Some(a)) => Ok(Some(arg_view(a))),
        Ok(None) => Ok(None),
        Err(e) => Err(e@),
    }
}

/// Reads one argument, or the closing parenthesis (`None`).
fn parse_arg(ctx: &mut ParseContext, accept_complex: bool) -> (r: Result<Option<(String, Type)>, ParseError>)
    requires
        old(ctx).wf(),
    ensures
        stepped(*old(ctx), *final(ctx), r is Ok),
        (parsed_arg(r), final(ctx).pos() as int) == spec_arg(
            old(ctx).source(),
            old(ctx).tokens(),
            old(ctx).pos() as int,
            accept_complex,
        ),
        r matches Ok(None) ==> closed_by_rparen(*final(ctx)),
{
    let tok = ctx.expect_one(&[TokenTyDisc::Ident, TokenTyDisc::RParen])?;
    match tok.ty {
        TokenTy::RParen => Ok(None),
        _ => {
            let name = ctx.text_of(tok.span);
            ctx.expect(TokenTyDisc::Colon)?;
            let ty = if accept_complex {
                Type::parse(ctx)?
            } else {
                let t = ctx.expect(TokenTyDisc::Ident)?;
                let text = ctx.text_of(t.span);
                Type::Primitive(PrimitiveType::from(t.span, text.as_str())?)
            };
            Ok(Some((name, ty)))
        },
    }
}

impl ArgumentList {
    /// Reads `( arguments )`; the types are primitive unless `accept_complex`.
    pub fn parse(ctx: &mut ParseContext, accept_complex: bool) -> (r: Result<ArgumentList, ParseError>)
        requires
            old(ctx).wf(),
        ensures
            stepped(*old(ctx), *final(ctx), r is Ok),
            (parsed(r), final(ctx).pos() as int) == spec_argument_list(
                old(ctx).source(),
                old(ctx).tokens(),
                old(ctx).pos() as int,
                accept_complex,
            ),
            r is Ok ==> closed_by_rparen(*final(ctx)),
    {
        let ghost src = ctx.source();
        let ghost toks = ctx.tokens();
        let ghost goal = spec_argument_list(src, toks, ctx.pos() as int, accept_complex);
        let mut args: Vec<(String, Type)> = Vec::new();
        ctx.expect(TokenTyDisc::LParen)?;
        match parse_arg(ctx, accept_complex)? {
            None => {
                assert(ArgumentList { args }@ =~= Seq::<ArgModel>::empty());
                return Ok(ArgumentList { args });
            },
            Some(a) => {
                args.push(a);
                assert(ArgumentList { args }@ =~= seq![arg_view(a)]);
            },
        }
        loop
            invariant
                stepped(*old(ctx), *ctx, true),
                src == ctx.source(),
                toks == ctx.tokens(),
                spec_args_rest(src, toks, ctx.pos() as int, accept_complex, ArgumentList { args }@)
                    == goal,
                goal == spec_argument_list(
                    old(ctx).source(),
                    old(ctx).tokens(),
                    old(ctx).pos() as int,
                    accept_complex,
                ),
            decreases ctx.tokens().len() - ctx.pos(),
        {
            let tok = ctx.expect_one(&[TokenTyDisc::Comma, TokenTyDisc::RParen])?;
            match tok.ty {
                TokenTy::RParen => {
                    return Ok(ArgumentList { args });
                },
                _ => match parse_arg(ctx, accept_complex)? {
                    None => {
                        return Ok(ArgumentList { args });
                    },
                    Some(a) => {
                        let ghost before = ArgumentList { args }@;
                        args.push(a);
                        assert(ArgumentList { args }@ =~= before.push(arg_view(a)));
                    },
                },
            }
        }
    }
}


impl Function {
    /// Reads a function: `func @number name(arguments)`, then `-> type` if an
    /// arrow follows.
    pub fn parse(ctx: &mut ParseContext) -> (r: Result<Function, ParseError>)
        requires
            old(ctx).wf(),
        ensures
            stepped(*old(ctx), *final(ctx), r is Ok),
            (parsed(r), final(ctx).pos() as int) == spec_function(
                old(ctx).source(),
                old(ctx).tokens(),
                old(ctx).pos() as int,
            ),
    {
        proof {
            if ctx.pos() < ctx.tokens().len() {
                assert(token_in_source(ctx.source(), ctx.tokens()[ctx.pos() as int]));
            }
        }
        let tok_ty = ctx.expect_one(&[TokenTyDisc::Function, TokenTyDisc::Factory])?;
        // The lexer reads the word `factory` as `func`, so no token here is of
        // kind `factory` (`wf`).
        assert(!(tok_ty.ty is Factory));
        ctx.expect(TokenTyDisc::At)?;
        let tok_id = ctx.expect(TokenTyDisc::Numeric)?;
        let num = match tok_id.ty {
            TokenTy::Numeric(num) => num,
            _ => 0,
        };
        if num == 0 {
            return Err(
                ParseError::Syntax {
                    message: String::from_str("function id must not be zero"),
                    span: tok_id.span,
                },
            );
        }
        let name_tok = ctx.expect(TokenTyDisc::Ident)?;
        let name = ctx.text_of(name_tok.span);
        let args = ArgumentList::parse(ctx, true)?;
        let arrow = match ctx.peek() {
            Some(next) => match next.ty {
                TokenTy::Arrow => true,
                _ => false,
            },
            None => false,
        };
        let ret = if arrow {
            ctx.expect(TokenTyDisc::Arrow)?;
            Some(Type::parse(ctx)?)
        } else {
            None
        };
        Ok(Function { args, ret, name, num })
    }
}

impl Interface {
    /// Reads an interface after the keyword `interface`:
    /// `name(constructor arguments) @uid { functions }`.
    pub fn parse(ctx: &mut ParseContext) -> (r: Result<Interface, ParseError>)
        requires
            old(ctx).wf(),
        ensures
            stepped(*old(ctx), *final(ctx), r is Ok),
            (parsed(r), final(ctx).pos() as int) == spec_interface(
                old(ctx).source(),
                old(ctx).tokens(),
                old(ctx).pos() as int,
            ),
    {
        let ghost src = ctx.source();
        let ghost toks = ctx.tokens();
        let ident_tok = ctx.expect(TokenTyDisc::Ident)?;
        let ident = ctx.text_of(ident_tok.span);
        let ctor = ArgumentList::parse(ctx, false)?;
        ctx.expect(TokenTyDisc::At)?;
        let uid_tok = ctx.expect(TokenTyDisc::Uid)?;
        let uid = match uid_tok.ty {
            TokenTy::Uid(uid) => uid,
            _ => 0,
        };
        ctx.expect(TokenTyDisc::LBrace)?;
        let ghost start = ctx.pos() as int;
        let mut f: Vec<Function> = Vec::new();
        assert(f@.map_values(|g: Function| g@) =~= Seq::<FunctionModel>::empty());
        loop
            invariant
                stepped(*old(ctx), *ctx, true),
                src == ctx.source(),
                toks == ctx.tokens(),
                spec_functions(src, toks, ctx.pos() as int, f@.map_values(|g: Function| g@))
                    == spec_functions(src, toks, start, Seq::empty()),
                spec_interface(old(ctx).source(), old(ctx).tokens(), old(ctx).pos() as int)
                    == finish_interface(toks, ident@, ctor@, uid, spec_functions(src, toks, start, Seq::empty())),
            ensures
                stepped(*old(ctx), *ctx, true),
                src == ctx.source(),
                toks == ctx.tokens(),
                spec_functions(src, toks, start, Seq::empty()) == (
                    Ok::<Seq<FunctionModel>, SpecParseError>(f@.map_values(|g: Function| g@)),
                    ctx.pos() as int,
                ),
            decreases ctx.tokens().len() - ctx.pos(),
        {
            let more = match ctx.peek() {
                Some(next) => next.ty.as_disc() != TokenTyDisc::RBrace,
                None => false,
            };
            if !more {
                break;
            }
            let func = Function::parse(ctx)?;
            let ghost before = f@.map_values(|g: Function| g@);
            f.push(func);
            assert(f@.map_values(|g: Function| g@) =~= before.push(func@));
        }
        ctx.expect(TokenTyDisc::RBrace)?;
        Ok(Interface { ident, ctor, uid, f })
    }
}

impl TopLevelStatement {
    /// Reads a top-level statement: `interface` and an interface.
    pub fn parse(ctx: &mut ParseContext) -> (r: Result<TopLevelStatement, ParseError>)
        requires
            old(ctx).wf(),
        ensures
            stepped(*old(ctx), *final(ctx), r is Ok),
            (parsed(r), final(ctx).pos() as int) == spec_top_level(
                old(ctx).source(),
                old(ctx).tokens(),
                old(ctx).pos() as int,
            ),
    {
        ctx.expect(TokenTyDisc::Interface)?;
        Ok(TopLevelStatement::Interface(Interface::parse(ctx)?))
    }
}

impl File {
    /// Reads top-level statements up to the end of the tokens.
    pub fn parse(ctx: &mut ParseContext) -> (r: Result<File, ParseError>)
        requires
            old(ctx).wf(),
        ensures
            final(ctx).wf(),
            final(ctx).same_tokens(old(ctx)),
            (parsed(r), final(ctx).pos() as int) == spec_file_from(
                old(ctx).source(),
                old(ctx).tokens(),
                old(ctx).pos() as int,
                Seq::empty(),
            ),
            r is Ok ==> final(ctx).pos() == final(ctx).tokens().len(),
            old(ctx).pos() <= final(ctx).pos(),
    {
        let ghost src = ctx.source();
        let ghost toks = ctx.tokens();
        let ghost goal = spec_file_from(src, toks, ctx.pos() as int, Seq::empty());
        let mut content: Vec<TopLevelStatement> = Vec::new();
        assert(File { content }@ =~= Seq::<InterfaceModel>::empty());
        while ctx.peek().is_some()
            invariant
                ctx.wf(),
                ctx.same_tokens(old(ctx)),
                old(ctx).pos() <= ctx.pos(),
                src == ctx.source(),
                toks == ctx.tokens(),
                goal == spec_file_from(
                    old(ctx).source(),
                    old(ctx).tokens(),
                    old(ctx).pos() as int,
                    Seq::empty(),
                ),
                spec_file_from(src, toks, ctx.pos() as int, File { content }@) == goal,
            decreases ctx.tokens().len() - ctx.pos(),
        {
            let ghost p0 = ctx.pos();
            let stmt = TopLevelStatement::parse(ctx)?;
            let ghost before = File { content }@;
            content.push(stmt);
            assert(File { content }@ =~= before.push(stmt@));
        }
        Ok(File { content })
    }
}

} // verus!
