use hust_rust::project::{Module, ProjectConfig, ProjectError};
use hust_rust::resolver::{ModuleResolver, ResolveStep};

fn module(name: &str, source: &str) -> Module {
    Module::from_source(&format!("proj/{}.hust", name), source.to_string())
}

#[test]
fn entry_without_imports_is_done_at_once() {
    let config = ProjectConfig::default_with_entry("main.hust");
    let mut r = ModuleResolver::new();
    let step = r.resolve(module("main", "void main() { }\n"), &config, "proj").unwrap();
    match step {
        ResolveStep::Done(ms) => {
            assert_eq!(ms.len(), 1);
            assert_eq!(ms[0].name, "main");
        },
        _ => panic!("expected Done"),
    }
}

#[test]
fn import_is_probed_loaded_and_listed_before_entry() {
    let config = ProjectConfig::default_with_entry("main.hust");
    let mut r = ModuleResolver::new();
    let step = r.resolve(module("main", "use math;\nvoid main() { }\n"), &config, "proj").unwrap();
    let cands = match step {
        ResolveStep::Probe(imp, cands) => {
            assert_eq!(imp, "math");
            cands
        },
        _ => panic!("expected Probe"),
    };
    assert_eq!(cands.len(), 3);
    assert_eq!(cands[2], "proj/math.hust");
    let step = r.found(&config, "proj", &vec![false, false, true]).unwrap();
    match step {
        ResolveStep::Load(p) => assert_eq!(p, "proj/math.hust"),
        _ => panic!("expected Load"),
    }
    let step = r.module_read(&config, "proj", module("math", "i32 f() { return 1; }\n")).unwrap();
    match step {
        ResolveStep::Done(ms) => {
            assert_eq!(ms.len(), 2);
            assert_eq!(ms[0].name, "math");
            assert_eq!(ms[1].name, "main");
        },
        _ => panic!("expected Done"),
    }
}

#[test]
fn missing_import_is_not_found() {
    let config = ProjectConfig::default_with_entry("main.hust");
    let mut r = ModuleResolver::new();
    let _ = r.resolve(module("main", "use gone;\n"), &config, "proj").unwrap();
    let e = r.found(&config, "proj", &vec![false, false, false]);
    match e {
        Err(ProjectError::ModuleNotFound(n)) => assert_eq!(n, "gone"),
        _ => panic!("expected ModuleNotFound"),
    }
}

#[test]
fn circular_import_is_refused() {
    let config = ProjectConfig::default_with_entry("main.hust");
    let mut r = ModuleResolver::new();
    let _ = r.resolve(module("main", "use a;\n"), &config, "proj").unwrap();
    let _ = r.found(&config, "proj", &vec![true, false, false]).unwrap();
    let step = r.module_read(&config, "proj", module("a", "use main;\n")).unwrap();
    match step {
        ResolveStep::Probe(imp, _) => assert_eq!(imp, "main"),
        _ => panic!("expected Probe"),
    }
    let _ = r.found(&config, "proj", &vec![false, false, true]).unwrap();
    let e = r.module_read(&config, "proj", module("main", "use a;\n"));
    match e {
        Err(ProjectError::CircularDependency(s)) => assert_eq!(s, "main -> a -> main"),
        _ => panic!("expected CircularDependency"),
    }
}

#[test]
fn shared_import_is_loaded_once() {
    let config = ProjectConfig::default_with_entry("main.hust");
    let mut r = ModuleResolver::new();
    let step = r.resolve(module("main", "use a;\nuse b;\n"), &config, "proj").unwrap();
    assert!(matches!(step, ResolveStep::Probe(_, _)));
    let _ = r.found(&config, "proj", &vec![false, false, true]).unwrap();
    let step = r.module_read(&config, "proj", module("a", "use c;\n")).unwrap();
    match step {
        ResolveStep::Probe(imp, _) => assert_eq!(imp, "c"),
        _ => panic!("expected Probe of c"),
    }
    let _ = r.found(&config, "proj", &vec![false, false, true]).unwrap();
    let step = r.module_read(&config, "proj", module("c", "")).unwrap();
    match step {
        ResolveStep::Probe(imp, _) => assert_eq!(imp, "b"),
        _ => panic!("expected Probe of b"),
    }
    let _ = r.found(&config, "proj", &vec![false, false, true]).unwrap();
    let step = r.module_read(&config, "proj", module("b", "use c;\n")).unwrap();
    match step {
        ResolveStep::Done(ms) => {
            let names: Vec<String> = ms.iter().map(|m| m.name.clone()).collect();
            assert_eq!(names, vec!["c".to_string(), "a".to_string(), "b".to_string(), "main".to_string()]);
        },
        _ => panic!("expected Done"),
    }
}

#[test]
fn circular_import_leaves_state() {
    let config = ProjectConfig::default_with_entry("main.hust");
    let mut r = ModuleResolver::new();
    let _ = r.resolve(module("main", "use a;\n"), &config, "proj").unwrap();
    let _ = r.found(&config, "proj", &vec![true, false, false]).unwrap();
    let _ = r.module_read(&config, "proj", module("a", "use main;\n")).unwrap();
    let _ = r.found(&config, "proj", &vec![false, false, true]).unwrap();
    let loaded_before = r.loaded_modules.entries.len();
    let stack_before = r.resolution_stack.clone();
    assert!(r.module_read(&config, "proj", module("main", "use a;\n")).is_err());
    assert_eq!(r.loaded_modules.entries.len(), loaded_before);
    assert_eq!(r.resolution_stack, stack_before);
}
