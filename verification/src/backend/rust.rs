//! Server-side Rust bindings for the interfaces of a file: a dispatch trait that
//! decodes the raw argument registers of each call, its blanket implementation,
//! the interface trait to implement, the protocol declaration and the
//! constructor's argument struct.
use vstd::prelude::*;
use crate::ast::ArgModel;
use crate::ast::ArgumentList;
use crate::ast::File;
use crate::ast::Function;
use crate::ast::FunctionModel;
use crate::ast::Interface;
use crate::ast::InterfaceModel;
use crate::ast::PrimitiveType;
use crate::ast::TopLevelStatement;
use crate::ast::Type;
use crate::ast::TypeModel;
use crate::ast::arg_view;
use crate::ast::ret_view;
use crate::backend::templates::copy_back_lines;
use crate::backend::templates::spec_copy_back_lines;
use crate::backend::templates::dispatch_signature;
use crate::backend::templates::spec_dispatch_signature;
use crate::backend::templates::new_from_body_head;
use crate::backend::templates::spec_new_from_body_head;
use crate::backend::templates::new_from_body_tail;
use crate::backend::templates::spec_new_from_body_tail;
use crate::backend::templates::vtable_head;
use crate::backend::templates::spec_vtable_head;
use crate::backend::templates::new_from_decl;
use crate::backend::templates::spec_new_from_decl;
use crate::text::collect_chars;
use crate::text::decimal;
use crate::text::push_char;
use crate::text::push_decimal;

verus! {

/// The expression that turns a raw register into a value of the type.
pub open spec fn spec_cast(to: PrimitiveType) -> Seq<char> {
    match to {
        PrimitiveType::Int => "as isize"@,
        PrimitiveType::Uint => "as usize"@,
        PrimitiveType::Bool => "!= 0"@,
        PrimitiveType::Addr => "as *const u8"@,
        PrimitiveType::Byte => "as u8"@,
        PrimitiveType::Proto => "as u128"@,
    }
}

/// The Rust type of a primitive type.
pub open spec fn spec_ty_str(to: PrimitiveType) -> Seq<char> {
    match to {
        PrimitiveType::Int => "isize"@,
        PrimitiveType::Uint => "usize"@,
        PrimitiveType::Bool => "bool"@,
        PrimitiveType::Addr => "*const u8"@,
        PrimitiveType::Byte => "u8"@,
        PrimitiveType::Proto => "u128"@,
    }
}

pub fn cast(to: PrimitiveType) -> (s: &'static str)
    ensures
        s@ == spec_cast(to),
{
    match to {
        PrimitiveType::Int => "as isize",
        PrimitiveType::Uint => "as usize",
        PrimitiveType::Bool => "!= 0",
        PrimitiveType::Addr => "as *const u8",
        PrimitiveType::Byte => "as u8",
        PrimitiveType::Proto => "as u128",
    }
}

pub fn ty_str(to: PrimitiveType) -> (s: &'static str)
    ensures
        s@ == spec_ty_str(to),
{
    match to {
        PrimitiveType::Int => "isize",
        PrimitiveType::Uint => "usize",
        PrimitiveType::Bool => "bool",
        PrimitiveType::Addr => "*const u8",
        PrimitiveType::Byte => "u8",
        PrimitiveType::Proto => "u128",
    }
}

/// The decimal representation of a non-negative integer.
pub open spec fn dec(n: int) -> Seq<char> {
    decimal(n as nat)
}

/// `s` without its leading `~` characters.
pub open spec fn trim_tildes(s: Seq<char>) -> Seq<char>
    decreases s.len(),
{
    if s.len() > 0 && s[0] == '~' {
        trim_tildes(s.drop_first())
    } else {
        s
    }
}

/// Whether a result is written into a buffer that the caller passes.
pub open spec fn is_buffer(ret: Option<TypeModel>) -> bool {
    ret matches Some(TypeModel::Slice(_)) || ret matches Some(TypeModel::String)
}

/// How many raw registers an argument of type `t` takes.
pub open spec fn registers(t: TypeModel) -> int {
    match t {
        TypeModel::Slice(_) => 2,
        TypeModel::String => 2,
        _ => 1,
    }
}

/// How many raw registers the first `n` arguments take.
pub open spec fn registers_before(args: Seq<ArgModel>, n: int) -> int
    decreases n,
{
    if n <= 0 {
        0
    } else {
        registers_before(args, n - 1) + registers(args[n - 1].1)
    }
}

/// The dispatch code that reads an argument of type `t` from register `a{inn}`
/// (and the one after it) into `v{out}`.
pub open spec fn arg_decode(t: TypeModel, out: int, inn: int) -> Seq<char> {
    match t {
        TypeModel::Primitive(ty) => "\tlet v"@ + dec(out) + " = a"@ + dec(inn) + " "@ + spec_cast(ty)
            + ";\n"@,
        TypeModel::Slice(ty) => "let v"@ + dec(out)
            + " = unsafe { &*::core::ptr::slice_from_raw_parts::<"@ + spec_ty_str(ty) + ">(a"@
            + dec(inn) + " as _, a"@ + dec(inn + 1) + " / size_of::<"@ + spec_ty_str(ty)
            + ">()) };\n"@,
        TypeModel::String => "let v"@ + dec(out)
            + " = unsafe { &*::core::ptr::slice_from_raw_parts::<u8>(a"@ + dec(inn) + " as _, a"@
            + dec(inn + 1) + ") };\n                            let v"@ + dec(out)
            + " = str::from_utf8(&*v"@ + dec(out)
            + ").map_err(|_| std::os::popcorn::proto::Error::InvalidUtf8)?;\n"@,
        TypeModel::Handle(_) => "let v"@ + dec(out)
            + " = unsafe { <std::os::popcorn::handle::OwnedHandle as std::os::popcorn::handle::FromRawHandle>::from_raw_handle(std::os::popcorn::handle::RawHandle(a"@
            + dec(inn) + " as isize)) };\n"@,
        TypeModel::Range(_) => Seq::empty(),
    }
}

/// The parameter of the interface trait's method for an argument.
pub open spec fn arg_param(name: Seq<char>, t: TypeModel) -> Seq<char> {
    match t {
        TypeModel::Primitive(ty) => name + ": "@ + spec_ty_str(ty) + ", \n"@,
        TypeModel::Slice(ty) => name + ": &["@ + spec_ty_str(ty) + "], \n"@,
        TypeModel::String => name + ": &str, \n"@,
        TypeModel::Handle(_) => name + ": std::os::popcorn::handle::OwnedHandle<()>, \n"@,
        TypeModel::Range(_) => Seq::empty(),
    }
}

/// The decoding code for the first `n` arguments; the first is read into
/// `v{out0}` from register `a{in0}`.
pub open spec fn args_decode(args: Seq<ArgModel>, n: int, out0: int, in0: int) -> Seq<char>
    decreases n,
{
    if n <= 0 {
        Seq::empty()
    } else {
        args_decode(args, n - 1, out0, in0) + arg_decode(
            args[n - 1].1,
            out0 + n - 1,
            in0 + registers_before(args, n - 1),
        )
    }
}

/// The parameters for the first `n` arguments.
pub open spec fn args_params(args: Seq<ArgModel>, n: int) -> Seq<char>
    decreases n,
{
    if n <= 0 {
        Seq::empty()
    } else {
        args_params(args, n - 1) + arg_param(args[n - 1].0, args[n - 1].1)
    }
}

/// `v0, ` to `v{n-1}, `, one per line.
pub open spec fn value_list(n: int) -> Seq<char>
    decreases n,
{
    if n <= 0 {
        Seq::empty()
    } else {
        value_list(n - 1) + "v"@ + dec(n - 1) + ", \n"@
    }
}

/// The dispatch code that prepares the caller's buffer for a result written
/// into one.
pub open spec fn ret_buffer(ret: Option<TypeModel>) -> Seq<char> {
    match ret {
        Some(TypeModel::Slice(ty)) => "let buf = unsafe { &mut *::core::ptr::slice_from_raw_parts_mut::<core::mem::MaybeUninit<"@
            + spec_ty_str(ty) + ">>(a1 as _, a2) };\n"@ + "\tlet v1 = a2;\n"@,
        Some(TypeModel::String) => "let buf = unsafe { &mut *::core::ptr::slice_from_raw_parts_mut::<core::mem::MaybeUninit<u8>>(a1 as _, a2) };\n"@
            + "\tlet v1 = a2;\n"@,
        _ => Seq::empty(),
    }
}

/// The dispatch code that turns the method's result into the call's result.
pub open spec fn ret_convert(ret: Option<TypeModel>) -> Seq<char> {
    match ret {
        Some(TypeModel::Slice(_)) => spec_copy_back_lines()
            + "\t\t                let ret = popcorn_server::Result::Value(ret.len() as u128);\n"@,
        Some(TypeModel::String) => spec_copy_back_lines()
            + "\t\t                let ret = popcorn_server::Result::Value(ret.len() as u128);\n"@,
        Some(TypeModel::Handle(_)) => ";\n\t\t                let ret = popcorn_server::Result::from(ret);\n"@,
        Some(TypeModel::Primitive(_)) => ";\n\t\t                let ret = popcorn_server::Result::Value(ret as u128);\n"@,
        _ => Seq::empty(),
    }
}

/// The result type of the method.
pub open spec fn ret_type(ret: Option<TypeModel>) -> Seq<char> {
    match ret {
        None => "Result<(), std::os::popcorn::proto::Error>"@,
        Some(TypeModel::String) => "Result<String, std::os::popcorn::proto::Error>"@,
        Some(TypeModel::Slice(ty)) => "Result<Box<["@ + spec_ty_str(ty) + "]>, std::os::popcorn::proto::Error>"@,
        Some(TypeModel::Primitive(ty)) => "Result<"@ + spec_ty_str(ty) + ", std::os::popcorn::proto::Error>"@,
        Some(TypeModel::Handle(_)) => "Result<popcorn_server::ReturnHandle, std::os::popcorn::proto::Error>"@,
        Some(TypeModel::Range(_)) => Seq::empty(),
    }
}

/// The first register, and the first value, that the arguments use.
pub open spec fn first_value(ret: Option<TypeModel>) -> int {
    if is_buffer(ret) {
        2
    } else {
        1
    }
}

pub open spec fn first_register(ret: Option<TypeModel>) -> int {
    if is_buffer(ret) {
        3
    } else {
        1
    }
}

/// The declaration of a function's dispatch method.
pub open spec fn func_dispatch(f: FunctionModel) -> Seq<char> {
    "fn dispatch_"@ + trim_tildes(f.name) + spec_dispatch_signature() + ";\n"@
}

/// The dispatch method of a function, in the blanket implementation for
/// implementors of the interface trait `iname`.
pub open spec fn func_dispatch_impl(iname: Seq<char>, f: FunctionModel) -> Seq<char> {
    let id = trim_tildes(f.name);
    let out0 = first_value(f.ret);
    let in0 = first_register(f.ret);
    "fn dispatch_"@ + id + spec_dispatch_signature() + " {alloc::boxed::Box::pin(async move {\n"@
        + "\tlet v0 = a0 as isize;\n"@ + ret_buffer(f.ret) + args_decode(f.args, f.args.len() as int, out0, in0)
        + "\tlet ret = <Self as "@ + iname + ">::"@ + id + "(self, \n"@ + value_list(out0 + f.args.len())
        + ").await?;\n"@ + ret_convert(f.ret) + (if f.ret is Some {
        "\tOk(ret)\n"@
    } else {
        "\tOk(popcorn_server::Result::Value(0))\n"@
    }) + "})\n}\n"@
}

/// The method of the interface trait for a function.
pub open spec fn func_method(f: FunctionModel) -> Seq<char> {
    "fn "@ + trim_tildes(f.name) + "(&self, handle: isize, "@ + (if is_buffer(f.ret) {
        "output_size: usize, \n"@
    } else {
        Seq::empty()
    }) + args_params(f.args, f.args.len() as int)
        + ") -> impl core::marker::Send + core::future::Future<Output = \n"@ + ret_type(f.ret) + "\n"@
        + "> where Self: Sized;\n"@
}

/// The entry of the function's dispatch method in the call table, keyed by the
/// interface's uid and the function's number.
pub open spec fn func_vtable(iname: Seq<char>, uid: u128, f: FunctionModel) -> Seq<char> {
    "map.insert("@ + dec(uid as int) + "u128 | ("@ + dec(f.num as int) + " as u128) << 96, unsafe { core::mem::transmute(<Self as "@
        + iname + "Dispatch>::dispatch_"@ + trim_tildes(f.name) + " as fn(_, _, _, _, _, _) -> _) });\n"@
}

/// Whether bindings can be generated for a function: no argument and no result
/// is a range.
pub open spec fn function_supported(f: FunctionModel) -> bool {
    &&& forall|k: int| 0 <= k < f.args.len() ==> !(#[trigger] f.args[k].1 is Range)
    &&& !(f.ret matches Some(TypeModel::Range(_)))
}

/// Whether bindings can be generated for an interface: every function is
/// supported and every constructor argument is of a primitive type.
pub open spec fn interface_supported(i: InterfaceModel) -> bool {
    &&& forall|k: int| 0 <= k < i.f.len() ==> function_supported(#[trigger] i.f[k])
    &&& forall|k: int| 0 <= k < i.ctor.len() ==> (#[trigger] i.ctor[k]).1 is Primitive
}

pub open spec fn all_dispatch(fs: Seq<FunctionModel>, n: int) -> Seq<char>
    decreases n,
{
    if n <= 0 {
        Seq::empty()
    } else {
        all_dispatch(fs, n - 1) + func_dispatch(fs[n - 1])
    }
}

pub open spec fn all_dispatch_impl(iname: Seq<char>, fs: Seq<FunctionModel>, n: int) -> Seq<char>
    decreases n,
{
    if n <= 0 {
        Seq::empty()
    } else {
        all_dispatch_impl(iname, fs, n - 1) + func_dispatch_impl(iname, fs[n - 1])
    }
}

pub open spec fn all_methods(fs: Seq<FunctionModel>, n: int) -> Seq<char>
    decreases n,
{
    if n <= 0 {
        Seq::empty()
    } else {
        all_methods(fs, n - 1) + func_method(fs[n - 1])
    }
}

pub open spec fn all_vtable(iname: Seq<char>, uid: u128, fs: Seq<FunctionModel>, n: int) -> Seq<char>
    decreases n,
{
    if n <= 0 {
        Seq::empty()
    } else {
        all_vtable(iname, uid, fs, n - 1) + func_vtable(iname, uid, fs[n - 1])
    }
}

/// The fields of the constructor's argument struct for the first `n`
/// constructor arguments.
pub open spec fn ctor_fields(ctor: Seq<ArgModel>, n: int) -> Seq<char>
    decreases n,
{
    if n <= 0 {
        Seq::empty()
    } else {
        ctor_fields(ctor, n - 1) + "pub "@ + ctor[n - 1].0 + ": "@ + spec_ty_str(ctor[n - 1].1->Primitive_0)
            + ",\n"@
    }
}

/// The dispatch trait of an interface.
pub open spec fn dispatch_trait(i: InterfaceModel, iname: Seq<char>) -> Seq<char> {
    "pub trait "@ + iname + "Dispatch {\n"@ + all_dispatch(i.f, i.f.len() as int) + "fn dispatch_new_from"@
        + spec_dispatch_signature() + ";\n"@ + "}"@
}

/// The blanket implementation of the dispatch trait.
pub open spec fn dispatch_impl(i: InterfaceModel, iname: Seq<char>) -> Seq<char> {
    "impl<T: "@ + iname + "> "@ + iname + "Dispatch for T {\n"@ + all_dispatch_impl(iname, i.f, i.f.len() as int)
        + "fn dispatch_new_from"@ + spec_dispatch_signature() + spec_new_from_body_head() + iname
        + spec_new_from_body_tail() + "\n"@ + "}"@
}

/// The interface trait.
pub open spec fn interface_trait(i: InterfaceModel, iname: Seq<char>) -> Seq<char> {
    "pub trait "@ + iname + ": "@ + iname + "Dispatch + core::marker::Sync {\n"@ + all_methods(i.f, i.f.len() as int)
        + spec_vtable_head() + dec(i.uid as int) + "u128, unsafe { core::mem::transmute(<Self as "@ + iname
        + "Dispatch>::dispatch_new_from as fn(_, _, _, _, _, _) -> _) }); "@ + all_vtable(
        iname,
        i.uid,
        i.f,
        i.f.len() as int,
    ) + " map }\n"@ + spec_new_from_decl() + "\n"@ + "}"@
}

/// The bindings of one interface whose trait is named `iname`.
pub open spec fn interface_bindings(i: InterfaceModel, iname: Seq<char>) -> Seq<char> {
    dispatch_trait(i, iname) + "\n"@ + dispatch_impl(i, iname) + "\n"@ + interface_trait(i, iname) + "\n"@
        + "impl std::os::popcorn::proto::Protocol for dyn "@ + iname + " { const UID: u128 = "@ + dec(
        i.uid as int,
    ) + "; type Ctor = "@ + iname + "Ctor; }\n"@ + "#[repr(C)] pub struct "@ + iname + "Ctor {\n"@
        + ctor_fields(i.ctor, i.ctor.len() as int) + "}\n"@
}


/// `name` without its leading `~` characters (`str::trim_start_matches`).
fn trim_start_tildes(name: &str) -> (r: String)
    ensures
        r@ == trim_tildes(name@),
{
    let chars = collect_chars(name);
    let mut i: usize = 0;
    assert(chars@.subrange(0, chars@.len() as int) =~= chars@);
    while i < chars.len() && chars[i] == '~'
        invariant
            i <= chars@.len(),
            trim_tildes(chars@) == trim_tildes(chars@.subrange(i as int, chars@.len() as int)),
        decreases chars.len() - i,
    {
        let ghost rest = chars@.subrange(i as int, chars@.len() as int);
        assert(rest.drop_first() =~= chars@.subrange(i + 1, chars@.len() as int));
        i += 1;
    }
    crate::text::string_from_chars(&chars, i, chars.len())
}

/// The decoding of one argument, read into `v{out}` from register `a{inn}`.
fn arg_decode_code(t: &Type, out: u128, inn: u128) -> (p: String)
    requires
        !(t@ is Range),
        inn < u128::MAX,
    ensures
        p@ == arg_decode(t@, out as int, inn as int),
{
    match t {
        Type::Primitive(ty) => {
            let mut p = String::from_str("\tlet v");
            push_decimal(&mut p, out);
            p.append(" = a");
            push_decimal(&mut p, inn);
            p.append(" ");
            p.append(cast(*ty));
            p.append(";\n");
            p
        },
        Type::Slice(ty) => {
            let mut p = String::from_str("let v");
            push_decimal(&mut p, out);
            p.append(" = unsafe { &*::core::ptr::slice_from_raw_parts::<");
            p.append(ty_str(*ty));
            p.append(">(a");
            push_decimal(&mut p, inn);
            p.append(" as _, a");
            push_decimal(&mut p, inn + 1);
            p.append(" / size_of::<");
            p.append(ty_str(*ty));
            p.append(">()) };\n");
            p
        },
        Type::String => {
            let mut p = String::from_str("let v");
            push_decimal(&mut p, out);
            p.append(" = unsafe { &*::core::ptr::slice_from_raw_parts::<u8>(a");
            push_decimal(&mut p, inn);
            p.append(" as _, a");
            push_decimal(&mut p, inn + 1);
            p.append(") };\n                            let v");
            push_decimal(&mut p, out);
            p.append(" = str::from_utf8(&*v");
            push_decimal(&mut p, out);
            p.append(").map_err(|_| std::os::popcorn::proto::Error::InvalidUtf8)?;\n");
            p
        },
        Type::Handle(_) => {
            let mut p = String::from_str("let v");
            push_decimal(&mut p, out);
            p.append(
                " = unsafe { <std::os::popcorn::handle::OwnedHandle as std::os::popcorn::handle::FromRawHandle>::from_raw_handle(std::os::popcorn::handle::RawHandle(a",
            );
            push_decimal(&mut p, inn);
            p.append(" as isize)) };\n");
            p
        },
        Type::Range(_) => String::new(),
    }
}

/// The parameter of the interface trait's method for one argument.
fn arg_param_code(name: &String, t: &Type) -> (p: String)
    requires
        !(t@ is Range),
    ensures
        p@ == arg_param(name@, t@),
{
    let mut p = name.clone();
    match t {
        Type::Primitive(ty) => {
            p.append(": ");
            p.append(ty_str(*ty));
            p.append(", \n");
        },
        Type::Slice(ty) => {
            p.append(": &[");
            p.append(ty_str(*ty));
            p.append("], \n");
        },
        Type::String => {
            p.append(": &str, \n");
        },
        Type::Handle(_) => {
            p.append(": std::os::popcorn::handle::OwnedHandle<()>, \n");
        },
        Type::Range(_) => {},
    }
    p
}

/// The decoding of all arguments; the first is read into `v{out0}` from
/// register `a{in0}`.
fn args_decode_code(args: &ArgumentList, out0: u128, in0: u128) -> (p: String)
    requires
        forall|k: int| 0 <= k < args@.len() ==> !(#[trigger] args@[k].1 is Range),
        out0 <= 2,
        in0 <= 3,
    ensures
        p@ == args_decode(args@, args@.len() as int, out0 as int, in0 as int),
{
    let mut p = String::new();
    let mut i: usize = 0;
    let mut inn: u128 = in0;
    while i < args.args.len()
        invariant
            forall|k: int| 0 <= k < args@.len() ==> !(#[trigger] args@[k].1 is Range),
            out0 <= 2,
            in0 <= 3,
            i <= args.args@.len(),
            args@.len() == args.args@.len(),
            p@ == args_decode(args@, i as int, out0 as int, in0 as int),
            inn == in0 + registers_before(args@, i as int),
            registers_before(args@, i as int) <= 2 * i,
        decreases args.args.len() - i,
    {
        let a = &args.args[i];
        assert(args@[i as int] == arg_view(args.args@[i as int]));
        assert(!(args@[i as int].1 is Range));
        let piece = arg_decode_code(&a.1, out0 + i as u128, inn);
        p.append(piece.as_str());
        inn = inn + if a.1.is_buffer_arg() {
            2
        } else {
            1
        };
        i += 1;
        assert(p@ =~= args_decode(args@, i as int, out0 as int, in0 as int));
    }
    p
}

/// The parameters for all arguments.
fn args_params_code(args: &ArgumentList) -> (p: String)
    requires
        forall|k: int| 0 <= k < args@.len() ==> !(#[trigger] args@[k].1 is Range),
    ensures
        p@ == args_params(args@, args@.len() as int),
{
    let mut p = String::new();
    let mut i: usize = 0;
    while i < args.args.len()
        invariant
            forall|k: int| 0 <= k < args@.len() ==> !(#[trigger] args@[k].1 is Range),
            i <= args.args@.len(),
            args@.len() == args.args@.len(),
            p@ == args_params(args@, i as int),
        decreases args.args.len() - i,
    {
        let a = &args.args[i];
        assert(args@[i as int] == arg_view(args.args@[i as int]));
        assert(!(args@[i as int].1 is Range));
        let piece = arg_param_code(&a.0, &a.1);
        p.append(piece.as_str());
        i += 1;
        assert(p@ =~= args_params(args@, i as int));
    }
    p
}

impl Type {
    /// Whether an argument of this type takes two registers (a slice or a
    /// string: address and length).
    pub fn is_buffer_arg(&self) -> (r: bool)
        ensures
            r == (registers(self@) == 2),
    {
        match self {
            Type::Slice(_) => true,
            Type::String => true,
            _ => false,
        }
    }
}

/// `v0, ` to `v{n-1}, `, one per line.
fn value_list_code(n: u128) -> (p: String)
    ensures
        p@ == value_list(n as int),
{
    let mut p = String::new();
    let mut v: u128 = 0;
    while v < n
        invariant
            v <= n,
            p@ == value_list(v as int),
        decreases n - v,
    {
        p.append("v");
        push_decimal(&mut p, v);
        p.append(", \n");
        v += 1;
        assert(p@ =~= value_list(v as int));
    }
    p
}

/// Whether a result is written into a buffer that the caller passes.
fn is_buffer_ret(ret: &Option<Type>) -> (r: bool)
    ensures
        r == is_buffer(ret_view(*ret)),
{
    match ret {
        Some(Type::Slice(_)) => true,
        Some(Type::String) => true,
        _ => false,
    }
}

fn ret_buffer_code(ret: &Option<Type>) -> (p: String)
    ensures
        p@ == ret_buffer(ret_view(*ret)),
{
    match ret {
        Some(Type::Slice(ty)) => {
            let mut p = String::from_str(
                "let buf = unsafe { &mut *::core::ptr::slice_from_raw_parts_mut::<core::mem::MaybeUninit<",
            );
            p.append(ty_str(*ty));
            p.append(">>(a1 as _, a2) };\n");
            p.append("\tlet v1 = a2;\n");
            p
        },
        Some(Type::String) => {
            let mut p = String::from_str(
                "let buf = unsafe { &mut *::core::ptr::slice_from_raw_parts_mut::<core::mem::MaybeUninit<u8>>(a1 as _, a2) };\n",
            );
            p.append("\tlet v1 = a2;\n");
            p
        },
        _ => String::new(),
    }
}

fn ret_convert_code(ret: &Option<Type>) -> (p: String)
    ensures
        p@ == ret_convert(ret_view(*ret)),
{
    match ret {
        Some(Type::Slice(_)) | Some(Type::String) => {
            let mut p = String::from_str(copy_back_lines());
            p.append("\t\t                let ret = popcorn_server::Result::Value(ret.len() as u128);\n");
            p
        },
        Some(Type::Handle(_)) => String::from_str(";\n\t\t                let ret = popcorn_server::Result::from(ret);\n"),
        Some(Type::Primitive(_)) => String::from_str(";\n\t\t                let ret = popcorn_server::Result::Value(ret as u128);\n"),
        _ => String::new(),
    }
}

fn ret_type_code(ret: &Option<Type>) -> (p: String)
    ensures
        p@ == ret_type(ret_view(*ret)),
{
    match ret {
        None => String::from_str("Result<(), std::os::popcorn::proto::Error>"),
        Some(Type::String) => String::from_str("Result<String, std::os::popcorn::proto::Error>"),
        Some(Type::Slice(ty)) => {
            let mut p = String::from_str("Result<Box<[");
            p.append(ty_str(*ty));
            p.append("]>, std::os::popcorn::proto::Error>");
            p
        },
        Some(Type::Primitive(ty)) => {
            let mut p = String::from_str("Result<");
            p.append(ty_str(*ty));
            p.append(", std::os::popcorn::proto::Error>");
            p
        },
        Some(Type::Handle(_)) => String::from_str("Result<popcorn_server::ReturnHandle, std::os::popcorn::proto::Error>"),
        Some(Type::Range(_)) => String::new(),
    }
}

fn func_dispatch_code(f: &Function) -> (p: String)
    ensures
        p@ == func_dispatch(f@),
{
    let id = trim_start_tildes(f.name.as_str());
    let mut p = String::from_str("fn dispatch_");
    p.append(id.as_str());
    p.append(dispatch_signature());
    p.append(";\n");
    p
}

fn func_dispatch_impl_code(iname: &str, f: &Function) -> (p: String)
    requires
        function_supported(f@),
    ensures
        p@ == func_dispatch_impl(iname@, f@),
{
    let id = trim_start_tildes(f.name.as_str());
    let buffer = is_buffer_ret(&f.ret);
    let out0: u128 = if buffer {
        2
    } else {
        1
    };
    let in0: u128 = if buffer {
        3
    } else {
        1
    };
    let mut p = String::from_str("fn dispatch_");
    p.append(id.as_str());
    p.append(dispatch_signature());
    p.append(" {alloc::boxed::Box::pin(async move {\n");
    p.append("\tlet v0 = a0 as isize;\n");
    let buf = ret_buffer_code(&f.ret);
    p.append(buf.as_str());
    let decode = args_decode_code(&f.args, out0, in0);
    p.append(decode.as_str());
    p.append("\tlet ret = <Self as ");
    p.append(iname);
    p.append(">::");
    p.append(id.as_str());
    p.append("(self, \n");
    let values = value_list_code(out0 + f.args.args.len() as u128);
    p.append(values.as_str());
    p.append(").await?;\n");
    let convert = ret_convert_code(&f.ret);
    p.append(convert.as_str());
    if f.ret.is_some() {
        p.append("\tOk(ret)\n");
    } else {
        p.append("\tOk(popcorn_server::Result::Value(0))\n");
    }
    p.append("})\n}\n");
    p
}

fn func_method_code(f: &Function) -> (p: String)
    requires
        function_supported(f@),
    ensures
        p@ == func_method(f@),
{
    let id = trim_start_tildes(f.name.as_str());
    let mut p = String::from_str("fn ");
    p.append(id.as_str());
    p.append("(&self, handle: isize, ");
    if is_buffer_ret(&f.ret) {
        p.append("output_size: usize, \n");
    }
    let params = args_params_code(&f.args);
    p.append(params.as_str());
    p.append(") -> impl core::marker::Send + core::future::Future<Output = \n");
    let ty = ret_type_code(&f.ret);
    p.append(ty.as_str());
    p.append("\n");
    p.append("> where Self: Sized;\n");
    p
}

fn func_vtable_code(iname: &str, uid: u128, f: &Function) -> (p: String)
    ensures
        p@ == func_vtable(iname@, uid, f@),
{
    let id = trim_start_tildes(f.name.as_str());
    let mut p = String::from_str("map.insert(");
    push_decimal(&mut p, uid);
    p.append("u128 | (");
    push_decimal(&mut p, f.num as u128);
    p.append(" as u128) << 96, unsafe { core::mem::transmute(<Self as ");
    p.append(iname);
    p.append("Dispatch>::dispatch_");
    p.append(id.as_str());
    p.append(" as fn(_, _, _, _, _, _) -> _) });\n");
    p
}

fn ctor_fields_code(ctor: &ArgumentList) -> (p: String)
    requires
        forall|k: int| 0 <= k < ctor@.len() ==> (#[trigger] ctor@[k]).1 is Primitive,
    ensures
        p@ == ctor_fields(ctor@, ctor@.len() as int),
{
    let mut p = String::new();
    let mut i: usize = 0;
    while i < ctor.args.len()
        invariant
            forall|k: int| 0 <= k < ctor@.len() ==> (#[trigger] ctor@[k]).1 is Primitive,
            i <= ctor.args@.len(),
            ctor@.len() == ctor.args@.len(),
            p@ == ctor_fields(ctor@, i as int),
        decreases ctor.args.len() - i,
    {
        let a = &ctor.args[i];
        assert(ctor@[i as int] == arg_view(ctor.args@[i as int]));
        assert(ctor@[i as int].1 is Primitive);
        let ty = match a.1 {
            Type::Primitive(ty) => ty,
            _ => PrimitiveType::Int,
        };
        p.append("pub ");
        p.append(a.0.as_str());
        p.append(": ");
        p.append(ty_str(ty));
        p.append(",\n");
        i += 1;
        assert(p@ =~= ctor_fields(ctor@, i as int));
    }
    p
}

/// The bindings of one interface, whose trait is named `interface_ident`.
pub fn generate_interface(interface: &Interface, interface_ident: &str) -> (out: String)
    requires
        interface_supported(interface@),
    ensures
        out@ == interface_bindings(interface@, interface_ident@),
{
    let ghost fs = interface@.f;
    let mut buf_dispatch = String::new();
    let mut buf_dispatch_impl = String::new();
    let mut buf_main = String::new();
    let mut buf_vtable = String::new();
    let mut i: usize = 0;
    while i < interface.f.len()
        invariant
            interface_supported(interface@),
            fs == interface@.f,
            fs.len() == interface.f@.len(),
            i <= fs.len(),
            buf_dispatch@ == all_dispatch(fs, i as int),
            buf_dispatch_impl@ == all_dispatch_impl(interface_ident@, fs, i as int),
            buf_main@ == all_methods(fs, i as int),
            buf_vtable@ == all_vtable(interface_ident@, interface.uid, fs, i as int),
        decreases interface.f.len() - i,
    {
        let func = &interface.f[i];
        assert(fs[i as int] == func@);
        assert(function_supported(fs[i as int]));
        let d = func_dispatch_code(func);
        buf_dispatch.append(d.as_str());
        let di = func_dispatch_impl_code(interface_ident, func);
        buf_dispatch_impl.append(di.as_str());
        let m = func_method_code(func);
        buf_main.append(m.as_str());
        let v = func_vtable_code(interface_ident, interface.uid, func);
        buf_vtable.append(v.as_str());
        i += 1;
        assert(buf_dispatch@ =~= all_dispatch(fs, i as int));
        assert(buf_dispatch_impl@ =~= all_dispatch_impl(interface_ident@, fs, i as int));
        assert(buf_main@ =~= all_methods(fs, i as int));
        assert(buf_vtable@ =~= all_vtable(interface_ident@, interface.uid, fs, i as int));
    }
    let mut dispatch = String::from_str("pub trait ");
    dispatch.append(interface_ident);
    dispatch.append("Dispatch {\n");
    dispatch.append(buf_dispatch.as_str());
    dispatch.append("fn dispatch_new_from");
    dispatch.append(dispatch_signature());
    dispatch.append(";\n");
    dispatch.append("}");
    let mut imp = String::from_str("impl<T: ");
    imp.append(interface_ident);
    imp.append("> ");
    imp.append(interface_ident);
    imp.append("Dispatch for T {\n");
    imp.append(buf_dispatch_impl.as_str());
    imp.append("fn dispatch_new_from");
    imp.append(dispatch_signature());
    imp.append(new_from_body_head());
    imp.append(interface_ident);
    imp.append(new_from_body_tail());
    imp.append("\n");
    imp.append("}");
    let mut main = String::from_str("pub trait ");
    main.append(interface_ident);
    main.append(": ");
    main.append(interface_ident);
    main.append("Dispatch + core::marker::Sync {\n");
    main.append(buf_main.as_str());
    main.append(vtable_head());
    push_decimal(&mut main, interface.uid);
    main.append("u128, unsafe { core::mem::transmute(<Self as ");
    main.append(interface_ident);
    main.append("Dispatch>::dispatch_new_from as fn(_, _, _, _, _, _) -> _) }); ");
    main.append(buf_vtable.as_str());
    main.append(" map }\n");
    main.append(new_from_decl());
    main.append("\n");
    main.append("}");
    let fields = ctor_fields_code(&interface.ctor);
    let mut out = dispatch;
    out.append("\n");
    out.append(imp.as_str());
    out.append("\n");
    out.append(main.as_str());
    out.append("\n");
    out.append("impl std::os::popcorn::proto::Protocol for dyn ");
    out.append(interface_ident);
    out.append(" { const UID: u128 = ");
    push_decimal(&mut out, interface.uid);
    out.append("; type Ctor = ");
    out.append(interface_ident);
    out.append("Ctor; }\n");
    out.append("#[repr(C)] pub struct ");
    out.append(interface_ident);
    out.append("Ctor {\n");
    out.append(fields.as_str());
    out.append("}\n");
    out
}

/// What `heck`'s `to_pascal_case` makes of a string (words capitalised and
/// joined, separators dropped).
pub uninterp spec fn pascal_case(s: Seq<char>) -> Seq<char>;

/// `heck::ToPascalCase::to_pascal_case`. Its word splitting and casing follow
/// Unicode rules at length, so its result is named rather than spelled out.
#[verifier::external_body]
fn to_pascal_case(s: &str) -> (r: String)
    ensures
        r@ == pascal_case(s@),
{
    heck::ToPascalCase::to_pascal_case(s)
}

/// The pieces between the dots of the first `n` characters of `s`: those that
/// are complete, and the one being read.
pub open spec fn split_prefix(s: Seq<char>, n: int) -> (Seq<Seq<char>>, Seq<char>)
    decreases n,
{
    if n <= 0 {
        (Seq::empty(), Seq::empty())
    } else {
        let (done, cur) = split_prefix(s, n - 1);
        if s[n - 1] == '.' {
            (done.push(cur), Seq::empty())
        } else {
            (done, cur.push(s[n - 1]))
        }
    }
}

/// The pieces of `s` between dots (`str::split(".")`): as many as there are
/// dots, plus one; empty ones included.
pub open spec fn split_dots(s: Seq<char>) -> Seq<Seq<char>> {
    split_prefix(s, s.len() as int).0.push(split_prefix(s, s.len() as int).1)
}

/// The first `n` pieces, each in Pascal case, joined.
pub open spec fn join_pascal(pieces: Seq<Seq<char>>, n: int) -> Seq<char>
    decreases n,
{
    if n <= 0 {
        Seq::empty()
    } else {
        join_pascal(pieces, n - 1) + pascal_case(pieces[n - 1])
    }
}

proof fn lemma_join_pascal_prefix(a: Seq<Seq<char>>, b: Seq<Seq<char>>, n: int)
    requires
        0 <= n <= a.len(),
        n <= b.len(),
        forall|k: int| 0 <= k < n ==> a[k] == b[k],
    ensures
        join_pascal(a, n) == join_pascal(b, n),
    decreases n,
{
    if n > 0 {
        lemma_join_pascal_prefix(a, b, n - 1);
    }
}

/// The name of the traits generated for an interface named `ident`: each
/// dot-separated piece of it in Pascal case, joined.
pub open spec fn trait_name(ident: Seq<char>) -> Seq<char> {
    join_pascal(split_dots(ident), split_dots(ident).len() as int)
}

/// The name of the traits generated for an interface named `ident`.
pub fn interface_trait_name(ident: &str) -> (r: String)
    ensures
        r@ == trait_name(ident@),
{
    let chars = collect_chars(ident);
    let mut acc = String::new();
    let mut cur = String::new();
    let mut i: usize = 0;
    while i < chars.len()
        invariant
            i <= chars@.len(),
            chars@ == ident@,
            acc@ == join_pascal(split_prefix(chars@, i as int).0, split_prefix(chars@, i as int).0.len() as int),
            cur@ == split_prefix(chars@, i as int).1,
        decreases chars.len() - i,
    {
        let c = chars[i];
        let ghost d0 = split_prefix(chars@, i as int).0;
        let ghost c0 = split_prefix(chars@, i as int).1;
        if c == '.' {
            proof {
                lemma_join_pascal_prefix(d0, d0.push(c0), d0.len() as int);
            }
            let piece = to_pascal_case(cur.as_str());
            acc.append(piece.as_str());
            cur = String::new();
        } else {
            push_char(&mut cur, c);
        }
        i += 1;
        let ghost d = split_prefix(chars@, i as int).0;
        assert(acc@ =~= join_pascal(d, d.len() as int));
    }
    proof {
        let d0 = split_prefix(chars@, i as int).0;
        let c0 = split_prefix(chars@, i as int).1;
        assert(chars@.len() == i);
        lemma_join_pascal_prefix(d0, d0.push(c0), d0.len() as int);
    }
    let piece = to_pascal_case(cur.as_str());
    acc.append(piece.as_str());
    let ghost d = split_dots(chars@);
    assert(acc@ =~= join_pascal(d, d.len() as int));
    acc
}

/// The bindings of the first `n` interfaces.
pub open spec fn file_bindings(interfaces: Seq<InterfaceModel>, n: int) -> Seq<char>
    decreases n,
{
    if n <= 0 {
        Seq::empty()
    } else {
        file_bindings(interfaces, n - 1) + interface_bindings(
            interfaces[n - 1],
            trait_name(interfaces[n - 1].ident),
        )
    }
}

/// Whether bindings can be generated for every interface of a file.
pub open spec fn file_supported(interfaces: Seq<InterfaceModel>) -> bool {
    forall|k: int| 0 <= k < interfaces.len() ==> interface_supported(#[trigger] interfaces[k])
}

/// The server-side Rust bindings of every interface of `input`, in order.
pub fn process(input: &File) -> (out: String)
    requires
        file_supported(input@),
    ensures
        out@ == file_bindings(input@, input@.len() as int),
{
    let mut out = String::new();
    let mut i: usize = 0;
    while i < input.content.len()
        invariant
            file_supported(input@),
            input@.len() == input.content@.len(),
            i <= input@.len(),
            out@ == file_bindings(input@, i as int),
        decreases input.content.len() - i,
    {
        let TopLevelStatement::Interface(interface) = &input.content[i];
        assert(input@[i as int] == interface@);
        assert(interface_supported(input@[i as int]));
        let name = interface_trait_name(interface.ident.as_str());
        let bindings = generate_interface(interface, name.as_str());
        out.append(bindings.as_str());
        i += 1;
        assert(out@ =~= file_bindings(input@, i as int));
    }
    out
}

fn args_supported(args: &ArgumentList) -> (r: bool)
    ensures
        r == forall|k: int| 0 <= k < args@.len() ==> !(#[trigger] args@[k].1 is Range),
{
    let mut i: usize = 0;
    while i < args.args.len()
        invariant
            i <= args.args@.len(),
            args@.len() == args.args@.len(),
            forall|k: int| 0 <= k < i ==> !(#[trigger] args@[k].1 is Range),
        decreases args.args.len() - i,
    {
        assert(args@[i as int] == arg_view(args.args@[i as int]));
        if let Type::Range(_) = &args.args[i].1 {
            assert(args@[i as int].1 is Range);
            return false;
        }
        i += 1;
    }
    true
}

fn ctor_supported(args: &ArgumentList) -> (r: bool)
    ensures
        r == forall|k: int| 0 <= k < args@.len() ==> (#[trigger] args@[k]).1 is Primitive,
{
    let mut i: usize = 0;
    while i < args.args.len()
        invariant
            i <= args.args@.len(),
            args@.len() == args.args@.len(),
            forall|k: int| 0 <= k < i ==> (#[trigger] args@[k]).1 is Primitive,
        decreases args.args.len() - i,
    {
        assert(args@[i as int] == arg_view(args.args@[i as int]));
        match &args.args[i].1 {
            Type::Primitive(_) => {},
            _ => {
                assert(!(args@[i as int].1 is Primitive));
                return false;
            },
        }
        i += 1;
    }
    true
}

fn function_is_supported(f: &Function) -> (r: bool)
    ensures
        r == function_supported(f@),
{
    let ret_ok = match &f.ret {
        Some(Type::Range(_)) => false,
        _ => true,
    };
    ret_ok && args_supported(&f.args)
}

/// Whether bindings can be generated for every interface of `input`: no
/// argument or result of a function is a range, and every constructor argument
/// is of a primitive type.
pub fn is_supported(input: &File) -> (r: bool)
    ensures
        r == file_supported(input@),
{
    let mut i: usize = 0;
    while i < input.content.len()
        invariant
            input@.len() == input.content@.len(),
            i <= input@.len(),
            forall|k: int| 0 <= k < i ==> interface_supported(#[trigger] input@[k]),
        decreases input.content.len() - i,
    {
        let TopLevelStatement::Interface(interface) = &input.content[i];
        assert(input@[i as int] == interface@);
        if !ctor_supported(&interface.ctor) {
            assert(!interface_supported(input@[i as int]));
            return false;
        }
        let mut j: usize = 0;
        while j < interface.f.len()
            invariant
                i < input@.len(),
                input@[i as int] == interface@,
                j <= interface.f@.len(),
                interface@.f.len() == interface.f@.len(),
                forall|k: int| 0 <= k < j ==> function_supported(#[trigger] interface@.f[k]),
            decreases interface.f.len() - j,
        {
            assert(interface@.f[j as int] == interface.f@[j as int]@);
            if !function_is_supported(&interface.f[j]) {
                assert(!function_supported(interface@.f[j as int]));
                assert(!interface_supported(input@[i as int]));
                return false;
            }
            j += 1;
        }
        i += 1;
    }
    true
}

} // verus!
