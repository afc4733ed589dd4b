//! What the generated text is made of, stated piece by piece: every function of
//! every interface has its dispatch declaration, its dispatch method, its
//! trait method and its call-table entry; every interface block ends with its
//! constructor struct; every method names its result type; every dispatch
//! method reads its arguments from consecutive registers and passes all the
//! values it read; and the types that a dispatch method builds are the types
//! that the trait method declares.
use vstd::prelude::*;
use crate::ast::ArgModel;
use crate::ast::FunctionModel;
use crate::ast::InterfaceModel;
use crate::ast::PrimitiveType;
use crate::ast::TypeModel;
use crate::backend::rust::all_dispatch;
use crate::backend::rust::all_dispatch_impl;
use crate::backend::rust::all_methods;
use crate::backend::rust::all_vtable;
use crate::backend::rust::arg_decode;
use crate::backend::rust::arg_param;
use crate::backend::rust::args_params;
use crate::backend::rust::dec;
use crate::backend::rust::ret_buffer;
use crate::backend::rust::spec_cast;
use crate::backend::rust::ctor_fields;
use crate::backend::rust::file_bindings;
use crate::backend::rust::first_register;
use crate::backend::rust::first_value;
use crate::backend::rust::func_dispatch;
use crate::backend::rust::func_dispatch_impl;
use crate::backend::rust::func_method;
use crate::backend::rust::func_vtable;
use crate::backend::rust::interface_bindings;
use crate::backend::rust::is_buffer;
use crate::backend::rust::args_decode;
use crate::backend::rust::registers_before;
use crate::backend::rust::ret_type;
use crate::backend::rust::spec_ty_str;
use crate::backend::rust::trait_name;
use crate::backend::rust::value_list;
use crate::backend::rust::trim_tildes;

verus! {

/// `x` occurs in `h` as a contiguous piece.
pub open spec fn infix(x: Seq<char>, h: Seq<char>) -> bool {
    exists|a: int| 0 <= a && a + x.len() <= h.len() && #[trigger] h.subrange(a, a + x.len()) == x
}

/// `h` ends with `x`.
pub open spec fn ends_with(h: Seq<char>, x: Seq<char>) -> bool {
    x.len() <= h.len() && h.subrange(h.len() - x.len(), h.len() as int) == x
}

pub proof fn lemma_infix_self(x: Seq<char>)
    ensures
        infix(x, x),
{
    let z: int = 0;
    assert(x.subrange(z, z + x.len()) =~= x);
}

pub broadcast proof fn lemma_infix_in_left(x: Seq<char>, a: Seq<char>, b: Seq<char>)
    requires
        infix(x, a),
    ensures
        #[trigger] infix(x, a + b),
{
    let w = choose|w: int| 0 <= w && w + x.len() <= a.len() && #[trigger] a.subrange(w, w + x.len()) == x;
    assert((a + b).subrange(w, w + x.len()) =~= a.subrange(w, w + x.len()));
}

pub broadcast proof fn lemma_infix_in_right(x: Seq<char>, a: Seq<char>, b: Seq<char>)
    requires
        infix(x, b),
    ensures
        #[trigger] infix(x, a + b),
{
    let w = choose|w: int| 0 <= w && w + x.len() <= b.len() && #[trigger] b.subrange(w, w + x.len()) == x;
    assert((a + b).subrange(a.len() + w, a.len() + w + x.len()) =~= b.subrange(w, w + x.len()));
}

pub proof fn lemma_infix_trans(x: Seq<char>, y: Seq<char>, h: Seq<char>)
    requires
        infix(x, y),
        infix(y, h),
    ensures
        infix(x, h),
{
    let w = choose|w: int| 0 <= w && w + x.len() <= y.len() && #[trigger] y.subrange(w, w + x.len()) == x;
    let v = choose|v: int| 0 <= v && v + y.len() <= h.len() && #[trigger] h.subrange(v, v + y.len()) == y;
    assert(h.subrange(v + w, v + w + x.len()) =~= y.subrange(w, w + x.len()));
}

pub broadcast proof fn lemma_ends_with_right(a: Seq<char>, b: Seq<char>)
    ensures
        #[trigger] ends_with(a + b, b),
{
    assert((a + b).subrange(a.len() as int, (a + b).len() as int) =~= b);
}

pub broadcast proof fn lemma_ends_with_extend(h: Seq<char>, x: Seq<char>, y: Seq<char>)
    requires
        ends_with(h, x),
    ensures
        #[trigger] ends_with(h + y, x + y),
{
    assert((h + y).subrange(h.len() - x.len(), (h + y).len() as int) =~= h.subrange(
        h.len() - x.len(),
        h.len() as int,
    ) + y);
}

proof fn lemma_ends_with_infix(h: Seq<char>, x: Seq<char>)
    requires
        ends_with(h, x),
    ensures
        infix(x, h),
{
    assert(h.subrange(h.len() - x.len(), h.len() - x.len() + x.len()) == x);
}

proof fn lemma_all_dispatch(fs: Seq<FunctionModel>, n: int, k: int)
    requires
        0 <= k < n <= fs.len(),
    ensures
        infix(func_dispatch(fs[k]), all_dispatch(fs, n)),
    decreases n,
{
    broadcast use {lemma_infix_in_left, lemma_infix_in_right};

    lemma_infix_self(func_dispatch(fs[k]));
    if k < n - 1 {
        lemma_all_dispatch(fs, n - 1, k);
    }
}

proof fn lemma_all_dispatch_impl(iname: Seq<char>, fs: Seq<FunctionModel>, n: int, k: int)
    requires
        0 <= k < n <= fs.len(),
    ensures
        infix(func_dispatch_impl(iname, fs[k]), all_dispatch_impl(iname, fs, n)),
    decreases n,
{
    broadcast use {lemma_infix_in_left, lemma_infix_in_right};

    lemma_infix_self(func_dispatch_impl(iname, fs[k]));
    if k < n - 1 {
        lemma_all_dispatch_impl(iname, fs, n - 1, k);
    }
}

proof fn lemma_all_methods(fs: Seq<FunctionModel>, n: int, k: int)
    requires
        0 <= k < n <= fs.len(),
    ensures
        infix(func_method(fs[k]), all_methods(fs, n)),
    decreases n,
{
    broadcast use {lemma_infix_in_left, lemma_infix_in_right};

    lemma_infix_self(func_method(fs[k]));
    if k < n - 1 {
        lemma_all_methods(fs, n - 1, k);
    }
}

proof fn lemma_all_vtable(iname: Seq<char>, uid: u128, fs: Seq<FunctionModel>, n: int, k: int)
    requires
        0 <= k < n <= fs.len(),
    ensures
        infix(func_vtable(iname, uid, fs[k]), all_vtable(iname, uid, fs, n)),
    decreases n,
{
    broadcast use {lemma_infix_in_left, lemma_infix_in_right};

    lemma_infix_self(func_vtable(iname, uid, fs[k]));
    if k < n - 1 {
        lemma_all_vtable(iname, uid, fs, n - 1, k);
    }
}

proof fn lemma_file_blocks(ifs: Seq<InterfaceModel>, n: int, k: int)
    requires
        0 <= k < n <= ifs.len(),
    ensures
        infix(interface_bindings(ifs[k], trait_name(ifs[k].ident)), file_bindings(ifs, n)),
    decreases n,
{
    broadcast use {lemma_infix_in_left, lemma_infix_in_right};

    lemma_infix_self(interface_bindings(ifs[k], trait_name(ifs[k].ident)));
    if k < n - 1 {
        lemma_file_blocks(ifs, n - 1, k);
    }
}

/// Each function of an interface has, in the interface's bindings, its
/// dispatch declaration (`fn dispatch_{name}<'a>(&'a self, a0: usize, …`), its
/// dispatch method, its trait method (`fn {name}(&self, handle: isize, …`) and
/// its call-table entry (`map.insert({uid}u128 | ({num} as u128) << 96, …`).
pub proof fn lemma_interface_has_function_pieces(i: InterfaceModel, iname: Seq<char>, k: int)
    requires
        0 <= k < i.f.len(),
    ensures
        infix(func_dispatch(i.f[k]), interface_bindings(i, iname)),
        infix(func_dispatch_impl(iname, i.f[k]), interface_bindings(i, iname)),
        infix(func_method(i.f[k]), interface_bindings(i, iname)),
        infix(func_vtable(iname, i.uid, i.f[k]), interface_bindings(i, iname)),
{
    broadcast use {lemma_infix_in_left, lemma_infix_in_right};

    let n = i.f.len() as int;
    lemma_all_dispatch(i.f, n, k);
    lemma_all_dispatch_impl(iname, i.f, n, k);
    lemma_all_methods(i.f, n, k);
    lemma_all_vtable(iname, i.uid, i.f, n, k);
}

/// Every function of every interface of a file has its dispatch declaration,
/// dispatch method, trait method and call-table entry in the file's bindings,
/// under the interface's trait name.
pub proof fn lemma_file_has_function_pieces(ifs: Seq<InterfaceModel>, k: int, j: int)
    requires
        0 <= k < ifs.len(),
        0 <= j < ifs[k].f.len(),
    ensures
        ({
            let i = ifs[k];
            let p = trait_name(i.ident);
            let out = file_bindings(ifs, ifs.len() as int);
            &&& infix(interface_bindings(i, p), out)
            &&& infix(func_dispatch(i.f[j]), out)
            &&& infix(func_dispatch_impl(p, i.f[j]), out)
            &&& infix(func_method(i.f[j]), out)
            &&& infix(func_vtable(p, i.uid, i.f[j]), out)
        }),
{
    let i = ifs[k];
    let p = trait_name(i.ident);
    let block = interface_bindings(i, p);
    let out = file_bindings(ifs, ifs.len() as int);
    lemma_file_blocks(ifs, ifs.len() as int, k);
    lemma_interface_has_function_pieces(i, p, j);
    lemma_infix_trans(func_dispatch(i.f[j]), block, out);
    lemma_infix_trans(func_dispatch_impl(p, i.f[j]), block, out);
    lemma_infix_trans(func_method(i.f[j]), block, out);
    lemma_infix_trans(func_vtable(p, i.uid, i.f[j]), block, out);
}


/// The field line of the constructor struct for one constructor argument.
pub open spec fn ctor_field(a: ArgModel) -> Seq<char> {
    "pub "@ + a.0 + ": "@ + spec_ty_str(a.1->Primitive_0) + ",\n"@
}

proof fn lemma_ctor_fields_has(ctor: Seq<ArgModel>, n: int, k: int)
    requires
        0 <= k < n <= ctor.len(),
    ensures
        infix(ctor_field(ctor[k]), ctor_fields(ctor, n)),
    decreases n,
{
    broadcast use {lemma_infix_in_left, lemma_ends_with_right, lemma_ends_with_extend};

    if k < n - 1 {
        lemma_ctor_fields_has(ctor, n - 1, k);
    } else {
        assert(ends_with(ctor_fields(ctor, n), ctor_field(ctor[k])));
        lemma_ends_with_infix(ctor_fields(ctor, n), ctor_field(ctor[k]));
    }
}

/// Each interface's block ends with its constructor struct: the line
/// `#[repr(C)] pub struct {name}Ctor {`, one field line per constructor
/// argument in order, and `}`.
pub proof fn lemma_interface_ends_with_ctor(i: InterfaceModel, iname: Seq<char>)
    ensures
        ends_with(
            interface_bindings(i, iname),
            "#[repr(C)] pub struct "@ + iname + "Ctor {\n"@ + ctor_fields(i.ctor, i.ctor.len() as int) + "}\n"@,
        ),
        forall|k: int|
            0 <= k < i.ctor.len() ==> infix(
                ctor_field(#[trigger] i.ctor[k]),
                ctor_fields(i.ctor, i.ctor.len() as int),
            ),
        ctor_fields(i.ctor, 0) == Seq::<char>::empty(),
        forall|n: int|
            0 < n <= i.ctor.len() ==> #[trigger] ctor_fields(i.ctor, n) == ctor_fields(i.ctor, n - 1)
                + ctor_field(i.ctor[n - 1]),
{
    broadcast use {lemma_ends_with_right, lemma_ends_with_extend};

    assert forall|k: int| 0 <= k < i.ctor.len() implies infix(
        ctor_field(#[trigger] i.ctor[k]),
        ctor_fields(i.ctor, i.ctor.len() as int),
    ) by {
        lemma_ctor_fields_has(i.ctor, i.ctor.len() as int, k);
    }
    assert forall|n: int| 0 < n <= i.ctor.len() implies #[trigger] ctor_fields(i.ctor, n) == ctor_fields(
        i.ctor,
        n - 1,
    ) + ctor_field(i.ctor[n - 1]) by {
        assert(ctor_fields(i.ctor, n) =~= ctor_fields(i.ctor, n - 1) + ctor_field(i.ctor[n - 1]));
    }
}

/// What a method's result is wrapped in: `()` without a result, else the Rust
/// type of the result.
pub open spec fn result_payload(ret: Option<TypeModel>) -> Seq<char> {
    match ret {
        None => "()"@,
        Some(TypeModel::String) => "String"@,
        Some(TypeModel::Slice(ty)) => "Box<["@ + spec_ty_str(ty) + "]>"@,
        Some(TypeModel::Primitive(ty)) => spec_ty_str(ty),
        Some(TypeModel::Handle(_)) => "popcorn_server::ReturnHandle"@,
        Some(TypeModel::Range(_)) => Seq::empty(),
    }
}

/// Every method of the interface trait returns a future of
/// `Result<{payload}, std::os::popcorn::proto::Error>`, and every dispatch
/// method ends with `Ok(ret)` when the function has a result and with
/// `Ok(popcorn_server::Result::Value(0))` when it has none.
pub proof fn lemma_function_results(iname: Seq<char>, f: FunctionModel)
    requires
        !(f.ret matches Some(TypeModel::Range(_))),
    ensures
        ret_type(f.ret) == "Result<"@ + result_payload(f.ret) + ", std::os::popcorn::proto::Error>"@,
        ends_with(
            func_method(f),
            ") -> impl core::marker::Send + core::future::Future<Output = \n"@ + ret_type(f.ret) + "\n"@
                + "> where Self: Sized;\n"@,
        ),
        ends_with(
            func_dispatch_impl(iname, f),
            (if f.ret is Some {
                "\tOk(ret)\n"@
            } else {
                "\tOk(popcorn_server::Result::Value(0))\n"@
            }) + "})\n}\n"@,
        ),
{
    broadcast use {lemma_ends_with_right, lemma_ends_with_extend};

    reveal_strlit("Result<");
    reveal_strlit(", std::os::popcorn::proto::Error>");
    reveal_strlit("Result<(), std::os::popcorn::proto::Error>");
    reveal_strlit("()");
    reveal_strlit("Result<String, std::os::popcorn::proto::Error>");
    reveal_strlit("String");
    reveal_strlit("Result<Box<[");
    reveal_strlit("Box<[");
    reveal_strlit("]>, std::os::popcorn::proto::Error>");
    reveal_strlit("]>");
    reveal_strlit("Result<popcorn_server::ReturnHandle, std::os::popcorn::proto::Error>");
    reveal_strlit("popcorn_server::ReturnHandle");
    assert(ret_type(f.ret) =~= "Result<"@ + result_payload(f.ret) + ", std::os::popcorn::proto::Error>"@);
}

proof fn lemma_args_decode_has(args: Seq<ArgModel>, n: int, out0: int, in0: int, k: int)
    requires
        0 <= k < n <= args.len(),
    ensures
        infix(arg_decode(args[k].1, out0 + k, in0 + registers_before(args, k)), args_decode(args, n, out0, in0)),
    decreases n,
{
    broadcast use {lemma_infix_in_left, lemma_infix_in_right};

    lemma_infix_self(arg_decode(args[k].1, out0 + k, in0 + registers_before(args, k)));
    if k < n - 1 {
        lemma_args_decode_has(args, n - 1, out0, in0, k);
    }
}

proof fn lemma_value_list_has(n: int, j: int)
    requires
        0 <= j < n,
    ensures
        infix("v"@ + crate::backend::rust::dec(j) + ", \n"@, value_list(n)),
    decreases n,
{
    broadcast use {lemma_infix_in_left, lemma_ends_with_right, lemma_ends_with_extend};

    if j < n - 1 {
        lemma_value_list_has(n - 1, j);
    } else {
        assert(ends_with(value_list(n), "v"@ + crate::backend::rust::dec(j) + ", \n"@));
        lemma_ends_with_infix(value_list(n), "v"@ + crate::backend::rust::dec(j) + ", \n"@);
    }
}

/// How a dispatch method uses the registers: `v0` is `a0 as isize`; with `r`
/// equal to 1 when the result goes to a buffer (read from `a1`, its length from
/// `a2` into `v1`) and 0 otherwise, the `k`-th argument is read into
/// `v{1 + r + k}` from the registers that follow those of the arguments before
/// it, starting at `a{1 + 2r}` (two registers for a slice or a string, one
/// otherwise); and the method is called with exactly `v0` to
/// `v{r + number of arguments}`, in order.
pub proof fn lemma_dispatch_registers(iname: Seq<char>, f: FunctionModel)
    ensures
        first_value(f.ret) == 1 + (if is_buffer(f.ret) {
            1int
        } else {
            0int
        }),
        first_register(f.ret) == 1 + 2 * (if is_buffer(f.ret) {
            1int
        } else {
            0int
        }),
        infix("\tlet v0 = a0 as isize;\n"@, func_dispatch_impl(iname, f)),
        forall|k: int|
            0 <= k < f.args.len() ==> infix(
                arg_decode(
                    #[trigger] f.args[k].1,
                    first_value(f.ret) + k,
                    first_register(f.ret) + registers_before(f.args, k),
                ),
                func_dispatch_impl(iname, f),
            ),
        infix(
            "(self, \n"@ + value_list(first_value(f.ret) + f.args.len()) + ").await?;\n"@,
            func_dispatch_impl(iname, f),
        ),
        forall|j: int|
            0 <= j < first_value(f.ret) + f.args.len() ==> infix(
                "v"@ + #[trigger] crate::backend::rust::dec(j) + ", \n"@,
                value_list(first_value(f.ret) + f.args.len()),
            ),
{
    broadcast use {lemma_infix_in_left, lemma_infix_in_right, lemma_ends_with_right, lemma_ends_with_extend};

    let h = func_dispatch_impl(iname, f);
    let out0 = first_value(f.ret);
    let in0 = first_register(f.ret);
    lemma_infix_self("\tlet v0 = a0 as isize;\n"@);
    assert(infix("\tlet v0 = a0 as isize;\n"@, h));
    assert forall|k: int| 0 <= k < f.args.len() implies infix(
        arg_decode(#[trigger] f.args[k].1, out0 + k, in0 + registers_before(f.args, k)),
        h,
    ) by {
        lemma_args_decode_has(f.args, f.args.len() as int, out0, in0, k);
        lemma_infix_self(args_decode(f.args, f.args.len() as int, out0, in0));
        assert(infix(args_decode(f.args, f.args.len() as int, out0, in0), h));
        lemma_infix_trans(
            arg_decode(f.args[k].1, out0 + k, in0 + registers_before(f.args, k)),
            args_decode(f.args, f.args.len() as int, out0, in0),
            h,
        );
    }
    let call = "(self, \n"@ + value_list(out0 + f.args.len()) + ").await?;\n"@;
    let id = trim_tildes(f.name);
    let before = "fn dispatch_"@ + id + crate::backend::templates::spec_dispatch_signature()
        + " {alloc::boxed::Box::pin(async move {\n"@ + "\tlet v0 = a0 as isize;\n"@
        + crate::backend::rust::ret_buffer(f.ret) + args_decode(f.args, f.args.len() as int, out0, in0)
        + "\tlet ret = <Self as "@ + iname + ">::"@ + id;
    assert(ends_with(before + "(self, \n"@ + value_list(out0 + f.args.len()) + ").await?;\n"@, call));
    lemma_ends_with_infix(before + "(self, \n"@ + value_list(out0 + f.args.len()) + ").await?;\n"@, call);
    assert(infix(call, h));
    assert forall|j: int| 0 <= j < out0 + f.args.len() implies infix(
        "v"@ + #[trigger] crate::backend::rust::dec(j) + ", \n"@,
        value_list(out0 + f.args.len()),
    ) by {
        lemma_value_list_has(out0 + f.args.len(), j);
    }
}

/// How a register becomes a value of a primitive type: a `bool` is true exactly
/// when its register is non-zero; every other type is the register converted
/// with `as` to that type's Rust name.
pub open spec fn register_conversion(t: PrimitiveType) -> Seq<char> {
    if t == PrimitiveType::Bool {
        "!= 0"@
    } else {
        "as "@ + spec_ty_str(t)
    }
}

/// An argument of a primitive type is handed to the trait method with that
/// type's Rust name, and the dispatch code reads it from its register with the
/// conversion to that same type (a `bool` from a non-zero register); `cast`
/// gives exactly that conversion.
pub proof fn lemma_primitive_argument(name: Seq<char>, t: PrimitiveType, out: int, inn: int)
    ensures
        arg_param(name, TypeModel::Primitive(t)) == name + ": "@ + spec_ty_str(t) + ", \n"@,
        arg_decode(TypeModel::Primitive(t), out, inn) == "\tlet v"@ + dec(out) + " = a"@ + dec(inn)
            + " "@ + register_conversion(t) + ";\n"@,
        spec_cast(t) == register_conversion(t),
{
    reveal_strlit("as ");
    reveal_strlit("as isize");
    reveal_strlit("isize");
    reveal_strlit("as usize");
    reveal_strlit("usize");
    reveal_strlit("as *const u8");
    reveal_strlit("*const u8");
    reveal_strlit("as u8");
    reveal_strlit("u8");
    reveal_strlit("as u128");
    reveal_strlit("u128");
    assert(spec_cast(t) =~= register_conversion(t));
}

/// A slice argument of element type `t` is handed to the trait method as a
/// `&[t]`, and the dispatch code builds it as a slice of that same element
/// type, its length the byte count in the second register divided by the size
/// of that same type.
pub proof fn lemma_slice_argument(name: Seq<char>, t: PrimitiveType, out: int, inn: int)
    ensures
        arg_param(name, TypeModel::Slice(t)) == name + ": &["@ + spec_ty_str(t) + "], \n"@,
        arg_decode(TypeModel::Slice(t), out, inn) == "let v"@ + dec(out)
            + " = unsafe { &*::core::ptr::slice_from_raw_parts::<"@ + spec_ty_str(t) + ">(a"@ + dec(
            inn,
        ) + " as _, a"@ + dec(inn + 1) + " / size_of::<"@ + spec_ty_str(t) + ">()) };\n"@,
{
}

/// A result that is a slice of `t` is returned by the trait method as a
/// `Box<[t]>`, and the dispatch code prepares the caller's buffer as
/// `a2` uninitialised elements of that same type `t` at `a1`; a string result
/// goes into a buffer of bytes.
pub proof fn lemma_buffer_element(t: PrimitiveType)
    ensures
        result_payload(Some(TypeModel::Slice(t))) == "Box<["@ + spec_ty_str(t) + "]>"@,
        ret_buffer(Some(TypeModel::Slice(t)))
            == "let buf = unsafe { &mut *::core::ptr::slice_from_raw_parts_mut::<core::mem::MaybeUninit<"@
            + spec_ty_str(t) + ">>(a1 as _, a2) };\n"@ + "\tlet v1 = a2;\n"@,
        ret_buffer(Some(TypeModel::String))
            == "let buf = unsafe { &mut *::core::ptr::slice_from_raw_parts_mut::<core::mem::MaybeUninit<"@
            + "u8"@ + ">>(a1 as _, a2) };\n"@ + "\tlet v1 = a2;\n"@,
{
    reveal_strlit("let buf = unsafe { &mut *::core::ptr::slice_from_raw_parts_mut::<core::mem::MaybeUninit<");
    reveal_strlit("u8");
    reveal_strlit(">>(a1 as _, a2) };\n");
    reveal_strlit("let buf = unsafe { &mut *::core::ptr::slice_from_raw_parts_mut::<core::mem::MaybeUninit<u8>>(a1 as _, a2) };\n");
    assert(ret_buffer(Some(TypeModel::String)) =~= "let buf = unsafe { &mut *::core::ptr::slice_from_raw_parts_mut::<core::mem::MaybeUninit<"@
            + "u8"@ + ">>(a1 as _, a2) };\n"@ + "\tlet v1 = a2;\n"@);
}

proof fn lemma_args_params_has(args: Seq<ArgModel>, n: int, k: int)
    requires
        0 <= k < n <= args.len(),
    ensures
        infix(arg_param(args[k].0, args[k].1), args_params(args, n)),
    decreases n,
{
    broadcast use {lemma_infix_in_left, lemma_infix_in_right};

    lemma_infix_self(arg_param(args[k].0, args[k].1));
    if k < n - 1 {
        lemma_args_params_has(args, n - 1, k);
    }
}

/// Each argument's parameter stands in the function's trait method, and the
/// buffer preparation for its result stands in its dispatch method; with the
/// laws above, the types that the dispatch method builds are the types that the
/// trait method declares.
pub proof fn lemma_function_pieces_in_place(iname: Seq<char>, f: FunctionModel)
    ensures
        forall|k: int|
            0 <= k < f.args.len() ==> infix(
                arg_param((#[trigger] f.args[k]).0, f.args[k].1),
                func_method(f),
            ),
        infix(ret_buffer(f.ret), func_dispatch_impl(iname, f)),
        infix(ret_type(f.ret), func_method(f)),
{
    broadcast use {lemma_infix_in_left, lemma_infix_in_right};

    let ps = args_params(f.args, f.args.len() as int);
    lemma_infix_self(ps);
    assert forall|k: int| 0 <= k < f.args.len() implies infix(
        arg_param((#[trigger] f.args[k]).0, f.args[k].1),
        func_method(f),
    ) by {
        lemma_args_params_has(f.args, f.args.len() as int, k);
        assert(infix(ps, func_method(f)));
        lemma_infix_trans(arg_param(f.args[k].0, f.args[k].1), ps, func_method(f));
    }
    lemma_infix_self(ret_buffer(f.ret));
    assert(infix(ret_buffer(f.ret), func_dispatch_impl(iname, f)));
    lemma_infix_self(ret_type(f.ret));
    assert(infix(ret_type(f.ret), func_method(f)));
}

} // verus!
