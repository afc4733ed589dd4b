use pipc::ast::ArgumentList;
use pipc::ast::File;
use pipc::ast::Function;
use pipc::ast::Interface;
use pipc::ast::PrimitiveType;
use pipc::ast::TopLevelStatement;
use pipc::ast::Type;
use pipc::backend::rust::cast;
use pipc::backend::rust::generate_interface;
use pipc::backend::rust::interface_trait_name;
use pipc::backend::rust::is_supported;
use pipc::backend::rust::process;
use pipc::backend::rust::ty_str;
use pipc::lexer::ParseContext;

const SAMPLE: &str = "interface my.test_iface(size: uint, flag: bool) @abcd-ef01-2345-6789abcdef01 {
    func @1 ~open(path: string, mode: uint) -> handle<file>
    func @2 read(buf: [byte]) -> [byte]
    func @3 close()
    func @4 name() -> string
    func @5 peer(h: handle<x>, n: int) -> addr
}
";

const EXPECTED: &str = "pub trait MyTestIfaceDispatch {\nfn dispatch_open<'a>(&'a self, a0: usize, a1: usize, a2: usize, a3: usize, a4: usize) -> core::pin::Pin<alloc::boxed::Box<dyn 'a + core::marker::Send + core::future::Future<Output = Result<popcorn_server::Result, std::os::popcorn::proto::Error>>>>;\nfn dispatch_read<'a>(&'a self, a0: usize, a1: usize, a2: usize, a3: usize, a4: usize) -> core::pin::Pin<alloc::boxed::Box<dyn 'a + core::marker::Send + core::future::Future<Output = Result<popcorn_server::Result, std::os::popcorn::proto::Error>>>>;\nfn dispatch_close<'a>(&'a self, a0: usize, a1: usize, a2: usize, a3: usize, a4: usize) -> core::pin::Pin<alloc::boxed::Box<dyn 'a + core::marker::Send + core::future::Future<Output = Result<popcorn_server::Result, std::os::popcorn::proto::Error>>>>;\nfn dispatch_name<'a>(&'a self, a0: usize, a1: usize, a2: usize, a3: usize, a4: usize) -> core::pin::Pin<alloc::boxed::Box<dyn 'a + core::marker::Send + core::future::Future<Output = Result<popcorn_server::Result, std::os::popcorn::proto::Error>>>>;\nfn dispatch_peer<'a>(&'a self, a0: usize, a1: usize, a2: usize, a3: usize, a4: usize) -> core::pin::Pin<alloc::boxed::Box<dyn 'a + core::marker::Send + core::future::Future<Output = Result<popcorn_server::Result, std::os::popcorn::proto::Error>>>>;\nfn dispatch_new_from<'a>(&'a self, a0: usize, a1: usize, a2: usize, a3: usize, a4: usize) -> core::pin::Pin<alloc::boxed::Box<dyn 'a + core::marker::Send + core::future::Future<Output = Result<popcorn_server::Result, std::os::popcorn::proto::Error>>>>;\n}\nimpl<T: MyTestIface> MyTestIfaceDispatch for T {\nfn dispatch_open<'a>(&'a self, a0: usize, a1: usize, a2: usize, a3: usize, a4: usize) -> core::pin::Pin<alloc::boxed::Box<dyn 'a + core::marker::Send + core::future::Future<Output = Result<popcorn_server::Result, std::os::popcorn::proto::Error>>>> {alloc::boxed::Box::pin(async move {\n\tlet v0 = a0 as isize;\nlet v1 = unsafe { &*::core::ptr::slice_from_raw_parts::<u8>(a1 as _, a2) };\n                            let v1 = str::from_utf8(&*v1).map_err(|_| std::os::popcorn::proto::Error::InvalidUtf8)?;\n\tlet v2 = a3 as usize;\n\tlet ret = <Self as MyTestIface>::open(self, \nv0, \nv1, \nv2, \n).await?;\n;\n\t\t                let ret = popcorn_server::Result::from(ret);\n\tOk(ret)\n})\n}\nfn dispatch_read<'a>(&'a self, a0: usize, a1: usize, a2: usize, a3: usize, a4: usize) -> core::pin::Pin<alloc::boxed::Box<dyn 'a + core::marker::Send + core::future::Future<Output = Result<popcorn_server::Result, std::os::popcorn::proto::Error>>>> {alloc::boxed::Box::pin(async move {\n\tlet v0 = a0 as isize;\nlet buf = unsafe { &mut *::core::ptr::slice_from_raw_parts_mut::<core::mem::MaybeUninit<u8>>(a1 as _, a2) };\n\tlet v1 = a2;\nlet v2 = unsafe { &*::core::ptr::slice_from_raw_parts::<u8>(a3 as _, a4 / size_of::<u8>()) };\n\tlet ret = <Self as MyTestIface>::read(self, \nv0, \nv1, \nv2, \n).await?;\nlet buf_copy = ::core::cmp::min(buf.len(), ret.len());\n\t\t                unsafe { ::core::ptr::copy_nonoverlapping(ret.as_ptr(), buf.as_mut_ptr().cast(), buf_copy) };\n\t\t                let ret = popcorn_server::Result::Value(ret.len() as u128);\n\tOk(ret)\n})\n}\nfn dispatch_close<'a>(&'a self, a0: usize, a1: usize, a2: usize, a3: usize, a4: usize) -> core::pin::Pin<alloc::boxed::Box<dyn 'a + core::marker::Send + core::future::Future<Output = Result<popcorn_server::Result, std::os::popcorn::proto::Error>>>> {alloc::boxed::Box::pin(async move {\n\tlet v0 = a0 as isize;\n\tlet ret = <Self as MyTestIface>::close(self, \nv0, \n).await?;\n\tOk(popcorn_server::Result::Value(0))\n})\n}\nfn dispatch_name<'a>(&'a self, a0: usize, a1: usize, a2: usize, a3: usize, a4: usize) -> core::pin::Pin<alloc::boxed::Box<dyn 'a + core::marker::Send + core::future::Future<Output = Result<popcorn_server::Result, std::os::popcorn::proto::Error>>>> {alloc::boxed::Box::pin(async move {\n\tlet v0 = a0 as isize;\nlet buf = unsafe { &mut *::core::ptr::slice_from_raw_parts_mut::<core::mem::MaybeUninit<u8>>(a1 as _, a2) };\n\tlet v1 = a2;\n\tlet ret = <Self as MyTestIface>::name(self, \nv0, \nv1, \n).await?;\nlet buf_copy = ::core::cmp::min(buf.len(), ret.len());\n\t\t                unsafe { ::core::ptr::copy_nonoverlapping(ret.as_ptr(), buf.as_mut_ptr().cast(), buf_copy) };\n\t\t                let ret = popcorn_server::Result::Value(ret.len() as u128);\n\tOk(ret)\n})\n}\nfn dispatch_peer<'a>(&'a self, a0: usize, a1: usize, a2: usize, a3: usize, a4: usize) -> core::pin::Pin<alloc::boxed::Box<dyn 'a + core::marker::Send + core::future::Future<Output = Result<popcorn_server::Result, std::os::popcorn::proto::Error>>>> {alloc::boxed::Box::pin(async move {\n\tlet v0 = a0 as isize;\nlet v1 = unsafe { <std::os::popcorn::handle::OwnedHandle as std::os::popcorn::handle::FromRawHandle>::from_raw_handle(std::os::popcorn::handle::RawHandle(a1 as isize)) };\n\tlet v2 = a2 as isize;\n\tlet ret = <Self as MyTestIface>::peer(self, \nv0, \nv1, \nv2, \n).await?;\n;\n\t\t                let ret = popcorn_server::Result::Value(ret as u128);\n\tOk(ret)\n})\n}\nfn dispatch_new_from<'a>(&'a self, a0: usize, a1: usize, a2: usize, a3: usize, a4: usize) -> core::pin::Pin<alloc::boxed::Box<dyn 'a + core::marker::Send + core::future::Future<Output = Result<popcorn_server::Result, std::os::popcorn::proto::Error>>>> {alloc::boxed::Box::pin(async move {let v0 = unsafe { &*::core::ptr::slice_from_raw_parts::<u8>(a0 as _, a1) }; let v0 = str::from_utf8(&*v0).map_err(|_| std::os::popcorn::proto::Error::InvalidUtf8)?; let v0 = std::path::Path::new(v0); let v1 = unsafe { <std::os::popcorn::handle::OwnedHandle as std::os::popcorn::handle::FromRawHandle>::from_raw_handle(std::os::popcorn::handle::RawHandle(a2 as isize)) };let ret = <Self as MyTestIface>::new_from(self, v0, v1).await?;Ok(popcorn_server::Result::from(ret))})}\n}\npub trait MyTestIface: MyTestIfaceDispatch + core::marker::Sync {\nfn open(&self, handle: isize, path: &str, \nmode: usize, \n) -> impl core::marker::Send + core::future::Future<Output = \nResult<popcorn_server::ReturnHandle, std::os::popcorn::proto::Error>\n> where Self: Sized;\nfn read(&self, handle: isize, output_size: usize, \nbuf: &[u8], \n) -> impl core::marker::Send + core::future::Future<Output = \nResult<Box<[u8]>, std::os::popcorn::proto::Error>\n> where Self: Sized;\nfn close(&self, handle: isize, ) -> impl core::marker::Send + core::future::Future<Output = \nResult<(), std::os::popcorn::proto::Error>\n> where Self: Sized;\nfn name(&self, handle: isize, output_size: usize, \n) -> impl core::marker::Send + core::future::Future<Output = \nResult<String, std::os::popcorn::proto::Error>\n> where Self: Sized;\nfn peer(&self, handle: isize, h: std::os::popcorn::handle::OwnedHandle<()>, \nn: isize, \n) -> impl core::marker::Send + core::future::Future<Output = \nResult<*const u8, std::os::popcorn::proto::Error>\n> where Self: Sized;\nfn __vtable() -> std::collections::HashMap<u128, for<'a> fn(&'a (), usize, usize, usize, usize, usize) -> core::pin::Pin<alloc::boxed::Box<dyn 'a + core::marker::Send + core::future::Future<Output = Result<popcorn_server::Result, std::os::popcorn::proto::Error>>>>> where Self: Sized { let mut map = std::collections::HashMap::new(); map.insert(53170895139048707057379045121u128, unsafe { core::mem::transmute(<Self as MyTestIfaceDispatch>::dispatch_new_from as fn(_, _, _, _, _, _) -> _) }); map.insert(53170895139048707057379045121u128 | (1 as u128) << 96, unsafe { core::mem::transmute(<Self as MyTestIfaceDispatch>::dispatch_open as fn(_, _, _, _, _, _) -> _) });\nmap.insert(53170895139048707057379045121u128 | (2 as u128) << 96, unsafe { core::mem::transmute(<Self as MyTestIfaceDispatch>::dispatch_read as fn(_, _, _, _, _, _) -> _) });\nmap.insert(53170895139048707057379045121u128 | (3 as u128) << 96, unsafe { core::mem::transmute(<Self as MyTestIfaceDispatch>::dispatch_close as fn(_, _, _, _, _, _) -> _) });\nmap.insert(53170895139048707057379045121u128 | (4 as u128) << 96, unsafe { core::mem::transmute(<Self as MyTestIfaceDispatch>::dispatch_name as fn(_, _, _, _, _, _) -> _) });\nmap.insert(53170895139048707057379045121u128 | (5 as u128) << 96, unsafe { core::mem::transmute(<Self as MyTestIfaceDispatch>::dispatch_peer as fn(_, _, _, _, _, _) -> _) });\n map }\nfn new_from(&self, endpoint: &std::path::Path, handle: std::os::popcorn::handle::OwnedHandle<()>) -> impl core::marker::Send + core::future::Future<Output = Result<popcorn_server::ReturnHandle, std::os::popcorn::proto::Error>> where Self: Sized;\n}\nimpl std::os::popcorn::proto::Protocol for dyn MyTestIface { const UID: u128 = 53170895139048707057379045121; type Ctor = MyTestIfaceCtor; }\n#[repr(C)] pub struct MyTestIfaceCtor {\npub size: usize,\npub flag: bool,\n}\n";

fn parse(src: &str) -> File {
    let mut ctx = ParseContext::new(src, "test.pipc");
    File::parse(&mut ctx).unwrap()
}

#[test]
fn generates_server_bindings() {
    let file = parse(SAMPLE);
    assert!(is_supported(&file));
    let out = process(&file);
    assert_eq!(out, EXPECTED);
}

#[test]
fn trait_names_are_pascal_case_pieces() {
    assert_eq!(interface_trait_name("my.test_iface"), "MyTestIface");
    assert_eq!(interface_trait_name("fs"), "Fs");
    assert_eq!(interface_trait_name("a..b"), "AB");
    assert_eq!(interface_trait_name(""), "");
}

#[test]
fn an_interface_without_functions() {
    let i = Interface {
        ident: "x".to_string(),
        ctor: ArgumentList { args: vec![("n".to_string(), Type::Primitive(PrimitiveType::Byte))] },
        uid: 5,
        f: vec![],
    };
    let out = generate_interface(&i, "Named");
    assert!(out.starts_with("pub trait NamedDispatch {\nfn dispatch_new_from<'a>"));
    assert!(out.contains("map.insert(5u128, unsafe { core::mem::transmute(<Self as NamedDispatch>::dispatch_new_from as fn(_, _, _, _, _, _) -> _) });  map }\n"));
    assert!(out.ends_with("impl std::os::popcorn::proto::Protocol for dyn Named { const UID: u128 = 5; type Ctor = NamedCtor; }\n#[repr(C)] pub struct NamedCtor {\npub n: u8,\n}\n"));
}

#[test]
fn vtable_keys_combine_uid_and_number() {
    let i = Interface {
        ident: "x".to_string(),
        ctor: ArgumentList { args: vec![] },
        uid: 340282366920938463463374607431768211455,
        f: vec![Function { args: ArgumentList { args: vec![] }, ret: None, name: "~~go".to_string(), num: 4294967295 }],
    };
    let out = generate_interface(&i, "T");
    assert!(out.contains("map.insert(340282366920938463463374607431768211455u128 | (4294967295 as u128) << 96, unsafe { core::mem::transmute(<Self as TDispatch>::dispatch_go as fn(_, _, _, _, _, _) -> _) });\n"));
    assert!(out.contains("fn go(&self, handle: isize, ) -> impl core::marker::Send"));
}

#[test]
fn ranges_are_not_supported() {
    let file = parse("interface a() @0000-0000-0000-000000000001 {\n func @9 f(r: range<proto>)\n}\n");
    assert!(!is_supported(&file));
    let file = parse("interface a() @0000-0000-0000-000000000001 {\n func @9 f() -> range<proto>\n}\n");
    assert!(!is_supported(&file));
    let mut file = parse("interface a() @0000-0000-0000-000000000001 {}\n");
    assert!(is_supported(&file));
    let TopLevelStatement::Interface(i) = &mut file.content[0];
    i.ctor.args.push(("s".to_string(), Type::String));
    assert!(!is_supported(&file));
}

#[test]
fn casts_and_type_names() {
    assert_eq!(cast(PrimitiveType::Int), "as isize");
    assert_eq!(cast(PrimitiveType::Uint), "as usize");
    assert_eq!(cast(PrimitiveType::Bool), "!= 0");
    assert_eq!(cast(PrimitiveType::Addr), "as *const u8");
    assert_eq!(cast(PrimitiveType::Byte), "as u8");
    assert_eq!(cast(PrimitiveType::Proto), "as u128");
    assert_eq!(ty_str(PrimitiveType::Int), "isize");
    assert_eq!(ty_str(PrimitiveType::Uint), "usize");
    assert_eq!(ty_str(PrimitiveType::Bool), "bool");
    assert_eq!(ty_str(PrimitiveType::Addr), "*const u8");
    assert_eq!(ty_str(PrimitiveType::Byte), "u8");
    assert_eq!(ty_str(PrimitiveType::Proto), "u128");
}

#[test]
fn empty_file_generates_nothing() {
    assert_eq!(process(&parse("")), "");
}
