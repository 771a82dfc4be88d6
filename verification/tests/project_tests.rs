use hust_rust::project::{Module, ProjectConfig, ProjectError};

#[test]
fn test_parse_config() {
    let config_str = r#"
[project]
name = my_project
version = 0.1.0
author = wood
entry = main.hust

[modules]
paths = src, lib
"#;

    let config = ProjectConfig::parse(config_str).unwrap();
    assert_eq!(config.package.name, "my_project");
    assert_eq!(config.package.version, "0.1.0");
    assert_eq!(config.package.author, Some("wood".to_string()));
    assert_eq!(config.package.entry, "main.hust");
    assert_eq!(config.module_paths.len(), 2);
}

#[test]
fn test_extract_imports() {
    let source = r#"
use math;
use utils;

void main() {
    i32 x = 1;
}
"#;

    let imports = Module::extract_imports(source);
    assert_eq!(imports, vec!["math", "utils"]);
}

#[test]
fn parse_config_fills_defaults() {
    let config = ProjectConfig::parse("# nothing\n").unwrap();
    assert_eq!(config.package.entry, "main.hust");
    assert_eq!(config.package.name, "");
    assert_eq!(config.package.author, None);
    assert_eq!(config.module_paths, vec!["src".to_string(), "lib".to_string()]);
}

#[test]
fn parse_config_package_section_and_paths() {
    let text = "[package]\nname = demo\n[modules]\npaths = a , b/c ,d\n[other]\nname = ignored\n";
    let config = ProjectConfig::parse(text).unwrap();
    assert_eq!(config.package.name, "demo");
    assert_eq!(config.module_paths, vec!["a".to_string(), "b/c".to_string(), "d".to_string()]);
}

#[test]
fn default_config_with_entry() {
    let config = ProjectConfig::default_with_entry("app.hust");
    assert_eq!(config.package.name, "unnamed");
    assert_eq!(config.package.version, "0.1.0");
    assert_eq!(config.package.author, None);
    assert_eq!(config.package.entry, "app.hust");
    assert_eq!(config.module_paths, vec!["src".to_string(), "lib".to_string()]);
}

#[test]
fn extract_imports_needs_semicolon_and_name() {
    let imports = Module::extract_imports("use a\n  use  b ;\nuse ;\nx use c;\n");
    assert_eq!(imports, vec!["b"]);
}

#[test]
fn module_from_source_is_named_by_stem() {
    let m = Module::from_source("proj/src/math.hust", "use util;\n".to_string());
    assert_eq!(m.name, "math");
    assert_eq!(m.path, "proj/src/math.hust");
    assert_eq!(m.imports, vec!["util".to_string()]);
}

#[test]
fn module_candidates_in_search_order() {
    let config = ProjectConfig::default_with_entry("main.hust");
    let c = config.module_candidates("math", "proj");
    assert_eq!(
        c,
        vec!["proj/src/math.hust".to_string(), "proj/lib/math.hust".to_string(), "proj/math.hust".to_string()]
    );
}

#[test]
fn find_module_takes_first_existing() {
    let config = ProjectConfig::default_with_entry("main.hust");
    let p = config.find_module("math", "proj", &vec![false, true, true]).unwrap();
    assert_eq!(p, "proj/lib/math.hust");
    let q = config.find_module("math", "proj", &vec![false, false, true]).unwrap();
    assert_eq!(q, "proj/math.hust");
}

#[test]
fn find_module_missing_is_error() {
    let config = ProjectConfig::default_with_entry("main.hust");
    let r = config.find_module("gone", "proj", &vec![false, false, false]);
    match r {
        Err(ProjectError::ModuleNotFound(n)) => assert_eq!(n, "gone"),
        _ => panic!("expected ModuleNotFound"),
    }
}

#[test]
fn project_error_messages() {
    assert_eq!(ProjectError::ConfigRead("x".to_string()).message(), "Config read failed: x");
    assert_eq!(ProjectError::ParseError("y".to_string()).message(), "Config parse error: y");
    assert_eq!(ProjectError::ModuleNotFound("m".to_string()).message(), "Module not found: m");
    assert_eq!(
        ProjectError::CircularDependency("a -> a".to_string()).message(),
        "Circular dependency detected: a -> a"
    );
}
