//! Fixed pieces of the generated Rust code that are long enough to keep apart.
use vstd::prelude::*;

verus! {

/// The first two lines of the code that copies a returned buffer back into the
/// caller's memory.
pub open spec fn spec_copy_back_lines() -> Seq<char> {
    "let buf_copy = ::core::cmp::min(buf.len(), ret.len());\n\t\t                unsafe { ::core::ptr::copy_nonoverlapping(ret.as_ptr(), buf.as_mut_ptr().cast(), buf_copy) };\n"@
}

pub fn copy_back_lines() -> (s: &'static str)
    ensures
        s@ == spec_copy_back_lines(),
{
    "let buf_copy = ::core::cmp::min(buf.len(), ret.len());\n\t\t                unsafe { ::core::ptr::copy_nonoverlapping(ret.as_ptr(), buf.as_mut_ptr().cast(), buf_copy) };\n"
}

/// The signature shared by every dispatch function, after its name.
pub open spec fn spec_dispatch_signature() -> Seq<char> {
    "<'a>(&'a self, a0: usize, a1: usize, a2: usize, a3: usize, a4: usize) -> core::pin::Pin<alloc::boxed::Box<dyn 'a + core::marker::Send + core::future::Future<Output = Result<popcorn_server::Result, std::os::popcorn::proto::Error>>>>"@
}

pub fn dispatch_signature() -> (s: &'static str)
    ensures
        s@ == spec_dispatch_signature(),
{
    "<'a>(&'a self, a0: usize, a1: usize, a2: usize, a3: usize, a4: usize) -> core::pin::Pin<alloc::boxed::Box<dyn 'a + core::marker::Send + core::future::Future<Output = Result<popcorn_server::Result, std::os::popcorn::proto::Error>>>>"
}

/// The body of `dispatch_new_from`, up to the name of the interface trait.
pub open spec fn spec_new_from_body_head() -> Seq<char> {
    " {alloc::boxed::Box::pin(async move {let v0 = unsafe { &*::core::ptr::slice_from_raw_parts::<u8>(a0 as _, a1) }; let v0 = str::from_utf8(&*v0).map_err(|_| std::os::popcorn::proto::Error::InvalidUtf8)?; let v0 = std::path::Path::new(v0); let v1 = unsafe { <std::os::popcorn::handle::OwnedHandle as std::os::popcorn::handle::FromRawHandle>::from_raw_handle(std::os::popcorn::handle::RawHandle(a2 as isize)) };let ret = <Self as "@
}

pub fn new_from_body_head() -> (s: &'static str)
    ensures
        s@ == spec_new_from_body_head(),
{
    " {alloc::boxed::Box::pin(async move {let v0 = unsafe { &*::core::ptr::slice_from_raw_parts::<u8>(a0 as _, a1) }; let v0 = str::from_utf8(&*v0).map_err(|_| std::os::popcorn::proto::Error::InvalidUtf8)?; let v0 = std::path::Path::new(v0); let v1 = unsafe { <std::os::popcorn::handle::OwnedHandle as std::os::popcorn::handle::FromRawHandle>::from_raw_handle(std::os::popcorn::handle::RawHandle(a2 as isize)) };let ret = <Self as "
}

/// The rest of the body of `dispatch_new_from`.
pub open spec fn spec_new_from_body_tail() -> Seq<char> {
    ">::new_from(self, v0, v1).await?;Ok(popcorn_server::Result::from(ret))})}"@
}

pub fn new_from_body_tail() -> (s: &'static str)
    ensures
        s@ == spec_new_from_body_tail(),
{
    ">::new_from(self, v0, v1).await?;Ok(popcorn_server::Result::from(ret))})}"
}

/// The start of `__vtable`, up to the uid of the interface.
pub open spec fn spec_vtable_head() -> Seq<char> {
    "fn __vtable() -> std::collections::HashMap<u128, for<'a> fn(&'a (), usize, usize, usize, usize, usize) -> core::pin::Pin<alloc::boxed::Box<dyn 'a + core::marker::Send + core::future::Future<Output = Result<popcorn_server::Result, std::os::popcorn::proto::Error>>>>> where Self: Sized { let mut map = std::collections::HashMap::new(); map.insert("@
}

pub fn vtable_head() -> (s: &'static str)
    ensures
        s@ == spec_vtable_head(),
{
    "fn __vtable() -> std::collections::HashMap<u128, for<'a> fn(&'a (), usize, usize, usize, usize, usize) -> core::pin::Pin<alloc::boxed::Box<dyn 'a + core::marker::Send + core::future::Future<Output = Result<popcorn_server::Result, std::os::popcorn::proto::Error>>>>> where Self: Sized { let mut map = std::collections::HashMap::new(); map.insert("
}

/// The declaration of `new_from` in the interface trait.
pub open spec fn spec_new_from_decl() -> Seq<char> {
    "fn new_from(&self, endpoint: &std::path::Path, handle: std::os::popcorn::handle::OwnedHandle<()>) -> impl core::marker::Send + core::future::Future<Output = Result<popcorn_server::ReturnHandle, std::os::popcorn::proto::Error>> where Self: Sized;"@
}

pub fn new_from_decl() -> (s: &'static str)
    ensures
        s@ == spec_new_from_decl(),
{
    "fn new_from(&self, endpoint: &std::path::Path, handle: std::os::popcorn::handle::OwnedHandle<()>) -> impl core::marker::Send + core::future::Future<Output = Result<popcorn_server::ReturnHandle, std::os::popcorn::proto::Error>> where Self: Sized;"
}

} // verus!
