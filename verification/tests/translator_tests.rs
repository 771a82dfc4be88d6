use hust_rust::get_hust_version;
use hust_rust::Module;
use hust_rust::translator::{transpile, TranspileError, Translator};

fn t() -> Translator {
    Translator::default()
}

#[test]
fn snake_case_of_camel_names() {
    assert_eq!(t().to_snake_case("getX"), "get_x");
    assert_eq!(t().to_snake_case("computeAreaNow"), "compute_area_now");
    assert_eq!(t().to_snake_case("Point"), "point");
    assert_eq!(t().to_snake_case(""), "");
}

#[test]
fn primitive_types() {
    assert!(t().is_primitive_type("i32"));
    assert!(t().is_primitive_type("String"));
    assert!(t().is_primitive_type("char"));
    assert!(!t().is_primitive_type("Point"));
    assert!(!t().is_primitive_type("usize"));
}

#[test]
fn params_become_name_colon_type() {
    assert_eq!(t().transform_params("i32 a, i32 b"), "a: i32, b: i32");
    assert_eq!(t().transform_params("   "), "");
    assert_eq!(t().transform_params("&self"), "&self");
}

#[test]
fn variable_declarations() {
    let tr = t();
    assert_eq!(tr.transform_variable_declarations("i32 x = 1;").unwrap(), "let mut x: i32 = 1;");
    assert_eq!(tr.transform_variable_declarations("const i32 N = 10;").unwrap(), "const N: usize = 10;");
    assert_eq!(tr.transform_variable_declarations("const i32 m = n + 1;").unwrap(), "let m: i32 = n + 1;");
    assert_eq!(
        tr.transform_variable_declarations("String s = \"hi\";").unwrap(),
        "let mut s: String = \"hi\".to_string();"
    );
    assert_eq!(
        tr.transform_variable_declarations("i32 a, b;").unwrap(),
        "let mut a: i32;\nlet mut b: i32;"
    );
}

#[test]
fn function_definitions() {
    let tr = t();
    assert_eq!(
        tr.transform_function_definitions("public i32 add(i32 a, i32 b) {").unwrap(),
        "pub fn add(a: i32, b: i32) -> i32 {"
    );
    assert_eq!(tr.transform_function_definitions("void main() {").unwrap(), "fn main() {");
}

#[test]
fn simple_line_rules() {
    let tr = t();
    assert_eq!(tr.transform_pass("if x { pass; }").unwrap(), "if x { (); }");
    assert_eq!(tr.transform_float_literals("let mut x: f32 = 0;").unwrap(), "let mut x: f32 = 0.0;");
    assert_eq!(tr.remove_use_statements("use math;\nfn main() {}").unwrap(), "\nfn main() {}");
    assert_eq!(tr.remove_condition_parens("while (i < 3) {").unwrap(), "while i < 3 {");
    assert_eq!(tr.transform_increment_decrement("i++;\nj--;").unwrap(), "i += 1;\nj -= 1;");
    assert_eq!(
        tr.transform_string_init("let mut s: String = \"a\";").unwrap(),
        "let mut s: String = \"a\".to_string();"
    );
}

#[test]
fn string_literal_arguments() {
    assert_eq!(t().transform_string_literals_in_args("\"a\", x"), "\"a\".to_string(), x");
    assert_eq!(t().transform_string_literals_in_args("\"a\".to_string()"), "\"a\".to_string()");
}

#[test]
fn const_array_is_refused() {
    let r = Translator::reject_const_array("const i32[2] a = {1, 2};");
    assert!(matches!(r, Err(TranspileError::TransformError(_))));
    assert!(Translator::reject_const_array("i32[2] a = {1, 2};").is_ok());
}

#[test]
fn const_without_value_is_refused() {
    let r = Translator::reject_const_no_init("const i32 a;");
    assert!(matches!(r, Err(TranspileError::TransformError(_))));
    assert!(Translator::reject_const_no_init("const i32 a = 1;").is_ok());
}

#[test]
fn static_array_to_vec_is_refused() {
    let r = Translator::reject_static_to_vec("i32[3] a;\nlet v = a.to_vec();");
    assert!(matches!(r, Err(TranspileError::TransformError(_))));
    assert!(Translator::reject_static_to_vec("let v = b.to_vec();").is_ok());
}

#[test]
fn transpile_small_program() {
    let out = transpile("void main() {\n    i32 x = 1;\n}").unwrap();
    assert_eq!(out, "fn main() {\n    let mut x: i32 = 1;\n}");
}

#[test]
fn transpile_method_on_translator_agrees() {
    let src = "void main() {\n    i32 x = 1;\n    x++;\n}";
    assert_eq!(t().transpile(src).unwrap(), transpile(src).unwrap());
}

#[test]
fn transpile_error_messages() {
    assert_eq!(TranspileError::FileRead("f".to_string()).message(), "File read failed: f");
    assert_eq!(TranspileError::ParseError("p".to_string()).message(), "Parse error: p");
    assert_eq!(TranspileError::TransformError("t".to_string()).message(), "Transform error: t");
    assert_eq!(TranspileError::WriteError("w".to_string()).message(), "Write error: w");
}

#[test]
fn hust_version_replaces_plus() {
    assert_eq!(get_hust_version("0.1.0+20260521"), "0.1.0.20260521");
    assert_eq!(get_hust_version("1.2.3"), "1.2.3");
}

#[test]
fn uninitialized_variable_is_reminded() {
    let r = t().remind_init_before_use("void main() {\n    i32 x;\n    print(x);\n}").unwrap();
    assert_eq!(r, vec![(2usize, "x".to_string())]);
}

#[test]
fn assigned_variable_is_not_reminded() {
    let r = t().remind_init_before_use("void main() {\n    i32 x;\n    x = 2;\n}").unwrap();
    assert!(r.is_empty());
}

#[test]
fn typed_for_loop_becomes_while() {
    let out = t().transform_for_loop("for (i32 i = 0; i < 3; i++) {\n    s = s + i;\n}").unwrap();
    assert_eq!(out, "let mut i: i32 = 0; while i < 3 {s = s + i;\ni = i + 1;}");
}

#[test]
fn untyped_for_loop_assigns_variable() {
    let out = t().transform_for_loop("for (j = 1; j < n; --j) { x = j; }").unwrap();
    assert_eq!(out, "j = 1; while j < n {x = j;\nj = j - 1;}");
}

#[test]
fn increments_outside_loops_are_kept() {
    assert_eq!(t().transform_for_loop("x++;\n--y;").unwrap(), "x++;\n--y;");
}

#[test]
fn dynamic_arrays_become_vecs() {
    let out = t().transform_dynamic_array_decl("i32[] v;\ni32[][] c;").unwrap();
    assert_eq!(out, "let mut v: Vec<i32> = Vec::new();\nlet mut c: Vec<Vec<i32>> = Vec::new();");
}

#[test]
fn variable_indices_get_usize_casts() {
    let out = t().transform_array_indices("x = a[i] + b[i][j] + c[0];").unwrap();
    assert_eq!(out, "x = a[(i) as usize] + b[(i) as usize][(j) as usize] + c[0];");
}

#[test]
fn modules_text_has_heading_and_entry_last() {
    let entry = Module::from_source("proj/main.hust", "void main() {\n    i32 x = 1;\n}\n".to_string());
    let modules = vec![entry.duplicate()];
    let (code, registry) = t().transpile_modules(&modules, &entry).unwrap();
    assert!(code.starts_with("// Generated by Hust transpiler\n// Multi-module compilation with namespace support\n\n"));
    assert!(code.contains("// Entry module: main\n"));
    assert!(code.contains("fn main() {"));
    assert_eq!(registry.default_space, "default");
}

#[test]
fn for_loop_end_is_after_closing_brace() {
    assert_eq!(t().find_for_loop_end("for (i < n) { x; }", 0), Some(18));
    assert_eq!(t().find_for_loop_end("x; for (f(a) < n) { { y; } } z", 0), Some(28));
    assert_eq!(t().find_for_loop_end("for (i < n) { x;", 0), None);
}

#[test]
fn cast_distributed_over_operands() {
    assert_eq!(t().distribute_cast_to_operands("sum / 10", "f32"), "sum as f32 / 10 as f32");
    assert_eq!(t().distribute_cast_to_operands("(a + b) * c", "f64"), "(a + b) as f64 * c as f64");
}

#[test]
fn two_modules_in_one_text() {
    let util = Module {
        name: "util".to_string(),
        path: "util.hust".to_string(),
        source: "i32 one() {\n    return 1;\n}\n".to_string(),
        imports: vec![],
    };
    let main = Module {
        name: "main".to_string(),
        path: "main.hust".to_string(),
        source: "void main() {\n}\n".to_string(),
        imports: vec!["util".to_string()],
    };
    let modules = vec![util, main.duplicate()];
    let (code, _) = t().transpile_modules(&modules, &main).unwrap();
    assert_eq!(
        code,
        "// Generated by Hust transpiler\n// Multi-module compilation with namespace support\n\n// Module: util\nfn one() -> i32 {\n    return 1;\n}\n\n\n// Entry module: main\nfn main() {\n}\n"
    );
}

#[test]
fn private_function_of_other_namespace_is_refused() {
    let geo = Module::from_source("geo.hust", "namespace geo;\ni32 area() {\n    return 1;\n}\n".to_string());
    let main = Module::from_source("main.hust", "void main() {\n    i32 a = geo.area();\n}\n".to_string());
    let modules = vec![geo, main.duplicate()];
    let r = t().transpile_modules(&modules, &main);
    match r {
        Err(TranspileError::TransformError(m)) => assert!(m.contains("function 'area' is private in namespace 'geo'")),
        _ => panic!("expected a private-call error"),
    }
}

#[test]
fn positions_count_bytes() {
    let src = "// \u{fc}\nfor (i < n) { x; }";
    assert_eq!(t().find_for_loop_end(src, 6), Some(24));
    let cast = "\u{fc}\u{fc} x + 1";
    assert_eq!(t().extract_cast_operand(cast, 5), Some(("x".to_string(), 7)));
}

#[test]
fn documented_rule_examples() {
    let tr = t();
    assert_eq!(
        tr.transform_type_cast("fn f() {\n    x = (f32)sum;\n}").unwrap(),
        "fn f() {\n    x = sum as f32;\n}"
    );
    assert_eq!(
        tr.transform_array_declarations("i32[5] a = {1,2,3,4,5};\ni32[5] b;\nbool[2] c;").unwrap(),
        "let mut a: [i32; 5] = [1,2,3,4,5];\nlet mut b: [i32; 5] = [0; 5];\nlet mut c: [bool; 2] = [false; 2];"
    );
    assert_eq!(
        tr.transform_variable_declarations("i32 x = 42;\nconst i32 N = 42;\nconst i32 y = x + 1;").unwrap(),
        "let mut x: i32 = 42;\nconst N: usize = 42;\nlet y: i32 = x + 1;"
    );
    let tr_out = tr.transform_interface_definitions("interface Shape { public f64 area(); }").unwrap();
    let compact: String = tr_out.chars().filter(|c| !c.is_whitespace()).collect();
    assert_eq!(compact, "traitShape{fnarea(&self)->f64;}");
}
