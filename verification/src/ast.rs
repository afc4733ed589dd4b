//! The syntax tree of an interface description file, and its model as values.
use vstd::prelude::*;

verus! {

/// The primitive types of the language.
#[derive(Clone, Copy, Debug, PartialEq, Eq, Structural)]
pub enum PrimitiveType {
    Int,
    Uint,
    Bool,
    Addr,
    Byte,
    Proto,
}

/// The type of an argument or of a result.
#[derive(Debug)]
pub enum Type {
    Primitive(PrimitiveType),
    Slice(PrimitiveType),
    Range(PrimitiveType),
    Handle(String),
    String,
}

/// A type as a value.
pub enum TypeModel {
    Primitive(PrimitiveType),
    Slice(PrimitiveType),
    Range(PrimitiveType),
    Handle(Seq<char>),
    String,
}

impl View for Type {
    type V = TypeModel;

    open spec fn view(&self) -> TypeModel {
        match self {
            Type::Primitive(p) => TypeModel::Primitive(*p),
            Type::Slice(p) => TypeModel::Slice(*p),
            Type::Range(p) => TypeModel::Range(*p),
            Type::Handle(h) => TypeModel::Handle(h@),
            Type::String => TypeModel::String,
        }
    }
}

/// An argument (its name and type) as a value.
pub type ArgModel = (Seq<char>, TypeModel);

pub open spec fn arg_view(a: (String, Type)) -> ArgModel {
    (a.0@, a.1@)
}

/// A parenthesised list of named, typed arguments.
#[derive(Debug)]
pub struct ArgumentList {
    pub args: Vec<(String, Type)>,
}

impl View for ArgumentList {
    type V = Seq<ArgModel>;

    open spec fn view(&self) -> Seq<ArgModel> {
        self.args@.map_values(|a: (String, Type)| arg_view(a))
    }
}

/// A function of an interface: its arguments, its result type if any, its name
/// and its number.
#[derive(Debug)]
pub struct Function {
    pub args: ArgumentList,
    pub ret: Option<Type>,
    pub name: String,
    pub num: u32,
}

pub struct FunctionModel {
    pub args: Seq<ArgModel>,
    pub ret: Option<TypeModel>,
    pub name: Seq<char>,
    pub num: u32,
}

pub open spec fn ret_view(r: Option<Type>) -> Option<TypeModel> {
    match r {
        Some(t) => Some(t@),
        None => None,
    }
}

impl View for Function {
    type V = FunctionModel;

    open spec fn view(&self) -> FunctionModel {
        FunctionModel { args: self.args@, ret: ret_view(self.ret), name: self.name@, num: self.num }
    }
}

/// An interface: its name, the arguments of its constructor, its uid and its
/// functions.
#[derive(Debug)]
pub struct Interface {
    pub ident: String,
    pub ctor: ArgumentList,
    pub uid: u128,
    pub f: Vec<Function>,
}

pub struct InterfaceModel {
    pub ident: Seq<char>,
    pub ctor: Seq<ArgModel>,
    pub uid: u128,
    pub f: Seq<FunctionModel>,
}

impl View for Interface {
    type V = InterfaceModel;

    open spec fn view(&self) -> InterfaceModel {
        InterfaceModel {
            ident: self.ident@,
            ctor: self.ctor@,
            uid: self.uid,
            f: self.f@.map_values(|g: Function| g@),
        }
    }
}

/// A statement at the top level of a file.
#[derive(Debug)]
pub enum TopLevelStatement {
    Interface(Interface),
}

impl View for TopLevelStatement {
    type V = InterfaceModel;

    open spec fn view(&self) -> InterfaceModel {
        match self {
            TopLevelStatement::Interface(i) => i@,
        }
    }
}

/// A parsed file: its top-level statements in order.
#[derive(Debug)]
pub struct File {
    pub content: Vec<TopLevelStatement>,
}

impl View for File {
    type V = Seq<InterfaceModel>;

    open spec fn view(&self) -> Seq<InterfaceModel> {
        self.content@.map_values(|t: TopLevelStatement| t@)
    }
}

} // verus!
