use pipc::ast::File;
use pipc::ast::Function;
use pipc::ast::PrimitiveType;
use pipc::ast::TopLevelStatement;
use pipc::ast::Type;
use pipc::lexer::ParseContext;
use pipc::lexer::ParseError;
use pipc::ast::ArgumentList;
use pipc::ast::Interface;

fn parse(src: &str) -> Result<File, ParseError> {
    let mut ctx = ParseContext::new(src, "test.pipc");
    File::parse(&mut ctx)
}

fn syntax_error(src: &str) -> (String, usize) {
    match parse(src) {
        Err(ParseError::Syntax { message, span }) => (message, span.start),
        other => panic!("{:?}", other),
    }
}

const SAMPLE: &str = "interface my.test_iface(size: uint, flag: bool) @abcd-ef01-2345-6789abcdef01 {
    func @1 ~open(path: string, mode: uint) -> handle<file>
    func @2 read(buf: [byte]) -> [byte]
    func @3 close()
    func @4 name() -> string
    func @5 peer(h: handle<x>, n: int,) -> addr
}
";

#[test]
fn parses_an_interface() {
    let file = parse(SAMPLE).unwrap();
    assert_eq!(file.content.len(), 1);
    let TopLevelStatement::Interface(i) = &file.content[0];
    assert_eq!(i.ident, "my.test_iface");
    assert_eq!(i.uid, 0xabcdef0123456789abcdef01);
    assert_eq!(i.ctor.args.len(), 2);
    assert_eq!(i.ctor.args[0].0, "size");
    assert!(matches!(i.ctor.args[0].1, Type::Primitive(PrimitiveType::Uint)));
    assert!(matches!(i.ctor.args[1].1, Type::Primitive(PrimitiveType::Bool)));
    assert_eq!(i.f.len(), 5);
    let open = &i.f[0];
    assert_eq!(open.name, "~open");
    assert_eq!(open.num, 1);
    assert!(matches!(open.args.args[0].1, Type::String));
    match &open.ret {
        Some(Type::Handle(p)) => assert_eq!(p, "file"),
        other => panic!("{:?}", other),
    }
    assert!(matches!(i.f[1].args.args[0].1, Type::Slice(PrimitiveType::Byte)));
    assert!(matches!(i.f[1].ret, Some(Type::Slice(PrimitiveType::Byte))));
    assert!(i.f[2].args.args.is_empty());
    assert!(i.f[2].ret.is_none());
    assert!(matches!(i.f[3].ret, Some(Type::String)));
    // a comma may follow the last argument
    assert_eq!(i.f[4].args.args.len(), 2);
    assert!(matches!(i.f[4].ret, Some(Type::Primitive(PrimitiveType::Addr))));
}

#[test]
fn parses_several_interfaces_and_ranges() {
    let src = "interface a() @0000-0000-0000-000000000001 { }\ninterface b() @0000-0000-0000-000000000002 {\n func @9 f(r: range<proto>)\n}\n";
    let file = parse(src).unwrap();
    assert_eq!(file.content.len(), 2);
    let TopLevelStatement::Interface(b) = &file.content[1];
    assert_eq!(b.uid, 2);
    assert!(matches!(b.f[0].args.args[0].1, Type::Range(PrimitiveType::Proto)));
}

#[test]
fn empty_source_has_no_interfaces() {
    assert_eq!(parse("").unwrap().content.len(), 0);
    assert_eq!(parse(" \n\t").unwrap().content.len(), 0);
}

#[test]
fn constructor_arguments_must_be_primitive() {
    let (message, start) = syntax_error("interface a(b: [int]) @x {}");
    assert_eq!(message, "expected identifier");
    assert_eq!(start, 15);
    let (message, start) = syntax_error("interface a(b: string) @x {}");
    assert_eq!(message, "expected primitive type");
    assert_eq!(start, 15);
}

#[test]
fn function_ids_must_not_be_zero() {
    let (message, start) = syntax_error("interface a() @0000-0000-0000-000000000001 { func @0 f() }");
    assert_eq!(message, "function id must not be zero");
    assert_eq!(start, 51);
}

#[test]
fn missing_pieces() {
    let (message, _) = syntax_error("interface a() x ");
    assert_eq!(message, "expected `@`");
    let (message, _) = syntax_error("interface a() @ x ");
    assert_eq!(message, "expected Uid");
    let (message, _) = syntax_error("struct ");
    assert_eq!(message, "expected `interface`");
    let (message, _) = syntax_error("interface a(b c) ");
    assert_eq!(message, "expected `:`");
    let (message, _) = syntax_error("interface a(b: int c: int) ");
    assert_eq!(message, "expected one of `,`, or `)`\n");
    let (message, _) = syntax_error("interface a(: int) ");
    assert_eq!(message, "expected one of identifier, or `)`\n");
    let (message, _) = syntax_error("interface a() @0000-0000-0000-000000000001 { x }");
    assert_eq!(message, "expected one of `func`, or `factory`\n");
    let (message, _) = syntax_error("interface a() @0000-0000-0000-000000000001 { func x }");
    assert_eq!(message, "expected `@`");
    let (message, _) = syntax_error("interface a() @0000-0000-0000-000000000001 { func @1 f() -> [ x ] }");
    assert_eq!(message, "expected primitive type");
    let (message, _) = syntax_error("interface a() @0000-0000-0000-000000000001 { func @1 f() -> handle x }");
    assert_eq!(message, "expected `<`");
    let (message, _) = syntax_error("interface a() @0000-0000-0000-000000000001 { func @1 f() -> ( }");
    assert_eq!(message, "expected one of identifier, or `[`\n");
}

#[test]
fn running_out_of_tokens() {
    assert!(matches!(parse("interface a("), Err(ParseError::EndOfInput)));
    assert!(matches!(parse("interface a() @0000-0000-0000-000000000001 {"), Err(ParseError::EndOfInput)));
    // the word at the end is not a token
    assert!(matches!(parse("interface"), Ok(_)));
    assert!(matches!(parse("interface "), Err(ParseError::EndOfInput)));
}

#[test]
fn range_checks_its_brackets_before_its_type() {
    let (message, start) = syntax_error("interface a() @0000-0000-0000-000000000001 { func @1 f(r: range<nope>) }");
    assert_eq!(message, "expected primitive type");
    assert_eq!(start, 64);
}

#[test]
fn parts_parse_on_their_own() {
    let mut ctx = ParseContext::new("(a: int, b: [u8]) ", "f");
    let err = ArgumentList::parse(&mut ctx, true);
    assert!(matches!(err, Err(ParseError::Syntax { .. })));

    let mut ctx = ParseContext::new("(a: int, b: [byte]) ", "f");
    let args = ArgumentList::parse(&mut ctx, true).unwrap();
    assert_eq!(args.args.len(), 2);

    let mut ctx = ParseContext::new("func @7 g() -> uint ", "f");
    let f = Function::parse(&mut ctx).unwrap();
    assert_eq!(f.num, 7);
    assert!(matches!(f.ret, Some(Type::Primitive(PrimitiveType::Uint))));

    let mut ctx = ParseContext::new("range<byte> ", "f");
    assert!(matches!(Type::parse(&mut ctx), Ok(Type::Range(PrimitiveType::Byte))));

    let mut ctx = ParseContext::new("x() @0000-0000-0000-00000000000a { } ", "f");
    let i = Interface::parse(&mut ctx).unwrap();
    assert_eq!(i.uid, 10);

    let mut ctx = ParseContext::new("interface x() @0000-0000-0000-00000000000a { } ", "f");
    assert!(TopLevelStatement::parse(&mut ctx).is_ok());
}

#[test]
fn primitive_names() {
    let span = pipc::token::Span { line: 1, column: 0, start: 0, end: 0 };
    assert_eq!(PrimitiveType::from(span, "int").unwrap(), PrimitiveType::Int);
    assert_eq!(PrimitiveType::from(span, "uint").unwrap(), PrimitiveType::Uint);
    assert_eq!(PrimitiveType::from(span, "bool").unwrap(), PrimitiveType::Bool);
    assert_eq!(PrimitiveType::from(span, "addr").unwrap(), PrimitiveType::Addr);
    assert_eq!(PrimitiveType::from(span, "byte").unwrap(), PrimitiveType::Byte);
    assert_eq!(PrimitiveType::from(span, "proto").unwrap(), PrimitiveType::Proto);
    assert!(matches!(PrimitiveType::from(span, "Int"), Err(ParseError::Syntax { .. })));
}

#[test]
fn a_parsed_file_consumes_every_token() {
    let mut ctx = ParseContext::new(SAMPLE, "f");
    assert!(File::parse(&mut ctx).is_ok());
    assert!(ctx.peek().is_none());
    assert!(matches!(ctx.next(), Err(ParseError::EndOfInput)));
}

#[test]
fn each_successful_step_reads_a_token() {
    let mut ctx = ParseContext::new("string [byte] ", "f");
    let before = ctx.peek().unwrap();
    assert!(matches!(Type::parse(&mut ctx), Ok(Type::String)));
    assert_ne!(ctx.peek().unwrap(), before);
    assert!(matches!(Type::parse(&mut ctx), Ok(Type::Slice(PrimitiveType::Byte))));
    assert!(ctx.peek().is_none());
}
