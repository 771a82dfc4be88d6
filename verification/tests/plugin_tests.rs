use hust_rust::plugins::{PluginOutcome, SyntaxSimplifyPlugin, TextView};
use hust_rust::{Plugin, PluginError, PluginManager};

struct Append {
    tag: &'static str,
    prio: u32,
}

impl Plugin for Append {
    fn transform_result(&self, _s: TextView) -> PluginOutcome {
        unreachable!()
    }
    fn priority_spec(&self) -> u32 {
        unreachable!()
    }
    fn name(&self) -> &str {
        "append"
    }
    fn description(&self) -> &str {
        "appends its tag"
    }
    fn version(&self) -> &str {
        "1"
    }
    fn transform(&self, source: &str) -> Result<String, PluginError> {
        Ok(format!("{}{}", source, self.tag))
    }
    fn priority(&self) -> u32 {
        self.prio
    }
}

struct Fail;

impl Plugin for Fail {
    fn transform_result(&self, _s: TextView) -> PluginOutcome {
        unreachable!()
    }
    fn priority_spec(&self) -> u32 {
        unreachable!()
    }
    fn priority(&self) -> u32 {
        100
    }
    fn name(&self) -> &str {
        "fail"
    }
    fn description(&self) -> &str {
        "always fails"
    }
    fn version(&self) -> &str {
        "1"
    }
    fn transform(&self, _source: &str) -> Result<String, PluginError> {
        Err(PluginError::ExecutionError("boom".to_string()))
    }
}

#[test]
fn empty_manager_returns_source() {
    let m = PluginManager::new();
    assert_eq!(m.execute_all("abc").unwrap(), "abc");
}

#[test]
fn plugins_run_by_priority_then_registration() {
    let mut m = PluginManager::new();
    m.register(Box::new(Append { tag: "b", prio: 20 }));
    m.register(Box::new(Append { tag: "a", prio: 10 }));
    m.register(Box::new(Append { tag: "c", prio: 20 }));
    assert_eq!(m.execute_all("x").unwrap(), "xabc");
}

#[test]
fn first_failure_stops_the_run() {
    let mut m = PluginManager::new();
    m.register(Box::new(Fail));
    m.register(Box::new(Append { tag: "a", prio: 1 }));
    let r = m.execute_all("x");
    assert!(matches!(r, Err(PluginError::ExecutionError(_))));
}

#[test]
fn execution_order_is_stable_by_priority() {
    assert_eq!(PluginManager::execution_order(&vec![100, 5, 100, 5]), vec![1, 3, 0, 2]);
}

#[test]
fn syntax_simplify_keeps_text() {
    let p = SyntaxSimplifyPlugin;
    assert_eq!(p.transform("i32 x = 1;").unwrap(), "i32 x = 1;");
    assert_eq!(p.priority(), 100);
    assert_eq!(p.name(), "syntax-simplify");
}

#[test]
fn plugin_error_messages() {
    assert_eq!(PluginError::LoadError("l".to_string()).message(), "Plugin load failed: l");
    assert_eq!(PluginError::ExecutionError("e".to_string()).message(), "Plugin execution failed: e");
    assert_eq!(PluginError::NotFound("n".to_string()).message(), "Plugin not found: n");
}

#[test]
fn each_plugin_gets_the_previous_output() {
    let mut m = PluginManager::new();
    m.register(Box::new(Append { tag: "2", prio: 2 }));
    m.register(Box::new(Append { tag: "1", prio: 1 }));
    assert_eq!(m.run_in_order(&vec![1, 0, 1], "s").unwrap(), "s121");
}
