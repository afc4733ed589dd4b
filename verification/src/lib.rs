//! Parser and binding generator for interface description files: a file
//! declares interfaces (a name, constructor arguments, a uid and numbered
//! functions), and the generator writes the code that serves them.
use vstd::prelude::*;

pub mod numeric;
pub mod text;
pub mod token;
pub mod lexer;
pub mod lexer_laws;
pub mod ast;
pub mod parser;
pub mod backend;
pub mod laws;

verus! {

/// What to generate.
#[derive(Clone, Copy, Debug, PartialEq, Eq, Structural)]
pub enum OutputFormat {
    Binary,
    Cpp,
    Rust,
}

/// For which side of an interface to generate bindings.
#[derive(Clone, Copy, Debug, PartialEq, Eq, Structural)]
pub enum OutputTy {
    Client,
    Server,
}

/// How a value is offered on the command line: its name, another name it is
/// accepted under, and its help text.
pub struct ValueDescription {
    pub name: &'static str,
    pub alias: Option<&'static str>,
    pub help: &'static str,
}

pub open spec fn spec_file_extension(format: OutputFormat) -> Seq<char> {
    match format {
        OutputFormat::Binary => "pipb"@,
        OutputFormat::Cpp => "hpp"@,
        OutputFormat::Rust => "rs"@,
    }
}

pub open spec fn spec_format_name(format: OutputFormat) -> Seq<char> {
    match format {
        OutputFormat::Binary => "binary"@,
        OutputFormat::Cpp => "cpp"@,
        OutputFormat::Rust => "rust"@,
    }
}

pub open spec fn spec_ty_name(ty: OutputTy) -> Seq<char> {
    match ty {
        OutputTy::Client => "client"@,
        OutputTy::Server => "server"@,
    }
}

impl OutputFormat {
    /// The extension of the files generated in this format.
    pub fn to_file_extension(&self) -> (s: &'static str)
        ensures
            s@ == spec_file_extension(*self),
    {
        match self {
            OutputFormat::Binary => "pipb",
            OutputFormat::Cpp => "hpp",
            OutputFormat::Rust => "rs",
        }
    }

    /// Every format, in the order they are offered.
    pub fn value_variants() -> (v: Vec<OutputFormat>)
        ensures
            v@ == seq![OutputFormat::Binary, OutputFormat::Cpp, OutputFormat::Rust],
    {
        vec![OutputFormat::Binary, OutputFormat::Cpp, OutputFormat::Rust]
    }

    /// How this format is offered on the command line.
    pub fn to_possible_value(&self) -> (d: ValueDescription)
        ensures
            d.name@ == spec_format_name(*self),
            match self {
                OutputFormat::Binary => d.alias == Some("bin") && d.help@
                    == "output `pipb` file for loading into kernel"@,
                OutputFormat::Cpp => d.alias == Some("c++") && d.help@ == "generate C++ bindings"@,
                OutputFormat::Rust => d.alias == Some("rs") && d.help@ == "generate Rust bindings"@,
            },
    {
        match self {
            OutputFormat::Binary => ValueDescription {
                name: "binary",
                alias: Some("bin"),
                help: "output `pipb` file for loading into kernel",
            },
            OutputFormat::Cpp => ValueDescription {
                name: "cpp",
                alias: Some("c++"),
                help: "generate C++ bindings",
            },
            OutputFormat::Rust => ValueDescription {
                name: "rust",
                alias: Some("rs"),
                help: "generate Rust bindings",
            },
        }
    }
}

impl OutputTy {
    /// Both sides, in the order they are offered.
    pub fn value_variants() -> (v: Vec<OutputTy>)
        ensures
            v@ == seq![OutputTy::Client, OutputTy::Server],
    {
        vec![OutputTy::Client, OutputTy::Server]
    }

    /// How this side is offered on the command line.
    pub fn to_possible_value(&self) -> (d: ValueDescription)
        ensures
            d.name@ == spec_ty_name(*self),
            d.alias is None,
            match self {
                OutputTy::Client => d.help@ == "generate caller bindings"@,
                OutputTy::Server => d.help@ == "generate server bindings"@,
            },
    {
        match self {
            OutputTy::Client => ValueDescription {
                name: "client",
                alias: None,
                help: "generate caller bindings",
            },
            OutputTy::Server => ValueDescription {
                name: "server",
                alias: None,
                help: "generate server bindings",
            },
        }
    }
}

/// Whether a generator exists for `format` and `ty`: only server-side Rust
/// bindings are generated.
pub fn has_generator(format: OutputFormat, ty: OutputTy) -> (r: bool)
    ensures
        r == (format == OutputFormat::Rust && ty == OutputTy::Server),
{
    format == OutputFormat::Rust && ty == OutputTy::Server
}

/// Different formats are written to files with different extensions, and are
/// offered under different names.
pub proof fn lemma_formats_distinguishable(a: OutputFormat, b: OutputFormat)
    requires
        a != b,
    ensures
        spec_file_extension(a) != spec_file_extension(b),
        spec_format_name(a) != spec_format_name(b),
{
    reveal_strlit("pipb");
    reveal_strlit("hpp");
    reveal_strlit("rs");
    reveal_strlit("binary");
    reveal_strlit("cpp");
    reveal_strlit("rust");
    assert(spec_file_extension(a).len() != spec_file_extension(b).len() || spec_file_extension(a)[0]
        != spec_file_extension(b)[0]);
    assert(spec_format_name(a)[0] != spec_format_name(b)[0] || spec_format_name(a)[1] != spec_format_name(b)[1]);
}

} // verus!
