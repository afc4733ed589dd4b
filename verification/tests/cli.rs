use pipc::has_generator;
use pipc::OutputFormat;
use pipc::OutputTy;

#[test]
fn file_extensions() {
    assert_eq!(OutputFormat::Binary.to_file_extension(), "pipb");
    assert_eq!(OutputFormat::Cpp.to_file_extension(), "hpp");
    assert_eq!(OutputFormat::Rust.to_file_extension(), "rs");
}

#[test]
fn offered_values() {
    assert_eq!(OutputFormat::value_variants(), vec![OutputFormat::Binary, OutputFormat::Cpp, OutputFormat::Rust]);
    let d = OutputFormat::Cpp.to_possible_value();
    assert_eq!((d.name, d.alias, d.help), ("cpp", Some("c++"), "generate C++ bindings"));
    let d = OutputFormat::Binary.to_possible_value();
    assert_eq!((d.name, d.alias), ("binary", Some("bin")));
    assert_eq!(d.help, "output `pipb` file for loading into kernel");
    let d = OutputFormat::Rust.to_possible_value();
    assert_eq!((d.name, d.alias, d.help), ("rust", Some("rs"), "generate Rust bindings"));
    assert_eq!(OutputTy::value_variants(), vec![OutputTy::Client, OutputTy::Server]);
    let d = OutputTy::Client.to_possible_value();
    assert_eq!((d.name, d.alias, d.help), ("client", None, "generate caller bindings"));
    let d = OutputTy::Server.to_possible_value();
    assert_eq!((d.name, d.alias, d.help), ("server", None, "generate server bindings"));
}

#[test]
fn only_rust_server_bindings_are_generated() {
    assert!(has_generator(OutputFormat::Rust, OutputTy::Server));
    assert!(!has_generator(OutputFormat::Rust, OutputTy::Client));
    assert!(!has_generator(OutputFormat::Binary, OutputTy::Server));
    assert!(!has_generator(OutputFormat::Cpp, OutputTy::Client));
}
