use hust_rust::namespace::{FunctionInfo, MethodInfo, NamespaceError, NamespaceRegistry};

#[test]
fn test_parse_namespace() {
    let mut registry = NamespaceRegistry::new();
    let source = r#"
namespace math;
public i32 factorial(i32 n) { return 0; }
"#;

    let (ns, remaining) = registry.parse_declaration(source, "math.hust").unwrap();
    assert_eq!(ns, Some("math".to_string()));
    assert!(!remaining.contains("namespace"));
}

#[test]
fn test_default_namespace() {
    let mut registry = NamespaceRegistry::new();
    let source = r#"
void main() { }
"#;

    let (ns, _) = registry.parse_declaration(source, "main.hust").unwrap();
    assert_eq!(ns, None);
}

#[test]
fn test_reserved_namespace() {
    let mut registry = NamespaceRegistry::new();
    let source = r#"
namespace MATH;
"#;

    let result = registry.parse_declaration(source, "test.hust");
    assert!(result.is_err());
    assert!(matches!(result.unwrap_err(), NamespaceError::ReservedNamespace(_)));
}

#[test]
fn test_system_namespaces_registered() {
    let registry = NamespaceRegistry::new();
    assert!(registry.spaces.contains_key("RUST"));
    assert!(registry.spaces.contains_key("HUST"));
}

#[test]
fn test_use_system_namespace() {
    let mut registry = NamespaceRegistry::new();
    let source = r#"
use RUST.std.io.*;
use HUST.math;
"#;

    let (uses, _) = registry.parse_use_statements(source, "test.hust");
    assert_eq!(uses.len(), 2);
    assert_eq!(uses[0].namespace, "RUST.std.io");
    assert_eq!(uses[1].namespace, "HUST.math");
}

#[test]
fn test_nested_namespace_rejected() {
    let mut registry = NamespaceRegistry::new();
    let source = r#"
namespace math.utils;
"#;

    let result = registry.parse_declaration(source, "test.hust");
    assert!(result.is_err());
    assert!(matches!(result.unwrap_err(), NamespaceError::NestedNamespace(_)));
}

#[test]
fn test_nested_namespace_error_message() {
    let mut registry = NamespaceRegistry::new();
    let source = r#"
namespace a.b.c;
"#;

    let result = registry.parse_declaration(source, "test.hust");
    assert!(result.is_err());
    let err = result.unwrap_err();
    assert!(err.message().contains("Nested namespace not supported"));
    assert!(err.message().contains("a.b.c"));
}

#[test]
fn reserved_names_are_uppercase_only() {
    assert!(NamespaceRegistry::is_reserved_namespace("MATH"));
    assert!(NamespaceRegistry::is_reserved_namespace("RUST"));
    assert!(!NamespaceRegistry::is_reserved_namespace("math"));
    assert!(!NamespaceRegistry::is_reserved_namespace("Math"));
}

#[test]
fn new_registry_has_default_space() {
    let registry = NamespaceRegistry::new();
    assert_eq!(registry.default_space, "default");
    assert!(!registry.spaces.contains_key("default"));
    assert_eq!(registry.spaces.len(), 2);
}

#[test]
fn namespace_declared_twice_is_refused() {
    let mut registry = NamespaceRegistry::new();
    let source = "namespace a;\nnamespace b;\n";
    let result = registry.parse_declaration(source, "t.hust");
    assert!(matches!(result, Err(NamespaceError::MultipleNamespaces(_))));
}

#[test]
fn namespace_without_name_is_refused() {
    let mut registry = NamespaceRegistry::new();
    let source = "namespace ;\n";
    let result = registry.parse_declaration(source, "t.hust");
    assert!(matches!(result, Err(NamespaceError::InvalidPosition(_))));
}

#[test]
fn namespace_after_code_is_not_read() {
    let mut registry = NamespaceRegistry::new();
    let source = "void f() { }\nnamespace a;\n";
    let (ns, rest) = registry.parse_declaration(source, "t.hust").unwrap();
    assert_eq!(ns, None);
    assert_eq!(rest, source);
}

#[test]
fn declared_namespace_records_file() {
    let mut registry = NamespaceRegistry::new();
    let (ns, rest) = registry.parse_declaration("namespace geo;\nvoid f() { }\n", "geo.hust").unwrap();
    assert_eq!(ns, Some("geo".to_string()));
    assert_eq!(rest, "\nvoid f() { }\n");
    let files = registry.spaces.get("geo").unwrap();
    assert_eq!(files, &vec!["geo.hust".to_string()]);
}

fn func(name: &str, ns: &str, public: bool) -> FunctionInfo {
    FunctionInfo {
        name: name.to_string(),
        namespace: ns.to_string(),
        is_public: public,
        params: String::new(),
        ret_type: "i32".to_string(),
    }
}

#[test]
fn resolve_function_in_current_namespace() {
    let mut registry = NamespaceRegistry::new();
    registry.register_function(func("add", "math", true));
    let r = registry.resolve_function("add", "math");
    assert_eq!(r.unwrap(), Some("math".to_string()));
}

#[test]
fn resolve_function_unknown_is_none() {
    let registry = NamespaceRegistry::new();
    let r = registry.resolve_function("nothing", "default");
    assert_eq!(r.unwrap(), None);
}

#[test]
fn resolve_function_in_two_namespaces_is_ambiguous() {
    let mut registry = NamespaceRegistry::new();
    registry.register_function(func("f", "a", true));
    registry.register_function(func("f", "b", true));
    let r = registry.resolve_function("f", "c");
    assert!(matches!(r, Err(NamespaceError::AmbiguousCall(_))));
}

#[test]
fn namespace_error_messages() {
    assert_eq!(NamespaceError::NotFound("x".to_string()).message(), "Namespace not found: x");
    assert_eq!(
        NamespaceError::AmbiguousCall("f".to_string()).message(),
        "Ambiguous call: f found in multiple namespaces"
    );
}

#[test]
fn import_decides_between_namespaces() {
    let mut reg = NamespaceRegistry::new();
    reg.register_function(func("add", "math", true));
    reg.register_function(func("add", "util", true));
    let _ = reg.parse_use_statements("use math;\n", "main.hust");
    assert_eq!(reg.resolve_with_imports("add", "main.hust", "default").unwrap(), Some("math".to_string()));
    assert!(matches!(reg.resolve_with_imports("add", "other.hust", "default"), Err(NamespaceError::AmbiguousCall(_))));
    assert_eq!(reg.resolve_with_imports("add", "other.hust", "util").unwrap(), Some("util".to_string()));
}

#[test]
fn registered_nested_class_resolves() {
    let mut reg = NamespaceRegistry::new();
    reg.register_nested_class("Outer", "Inner", "Outer_Inner", "geo");
    assert_eq!(reg.resolve_nested_class("Outer.Inner", "geo"), Some("Outer_Inner".to_string()));
    assert_eq!(reg.resolve_nested_class("Outer", "geo"), None);
    assert_eq!(reg.resolve_nested_class("Outer.Other", "geo"), None);
}

#[test]
fn registered_method_visibility() {
    let mut reg = NamespaceRegistry::new();
    let m = MethodInfo {
        name: "secret".to_string(),
        is_public: false,
        is_static: false,
        ret_type: "void".to_string(),
        params: String::new(),
    };
    reg.register_method("Box", m, "geo");
    assert!(!reg.is_method_accessible("Box", "secret", "geo", Some("Other")));
    assert!(!reg.is_method_accessible("Box", "secret", "geo", None));
    assert!(reg.is_method_accessible("Box", "secret", "geo", Some("Box")));
    assert!(reg.is_method_accessible("Box", "secret", "elsewhere", None));
}
