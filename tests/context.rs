use mold::text::{is_whitespace, trim};
use mold::{Mold, Namespace, SerializedContext, GLOBAL_NS};

fn namespace(name: &str, vars: &[(&str, &str)]) -> Namespace {
    let mut ns = Namespace::new(name.to_string());
    for (k, v) in vars {
        ns.set(k.to_string(), v.to_string());
    }
    ns
}

#[test]
fn global_namespace_is_empty() {
    let g = Namespace::global();
    assert_eq!(g.name(), GLOBAL_NS);
    assert!(g.get("x").is_none());
}

#[test]
fn global_block_used_without_global_entry() {
    let sc = SerializedContext {
        global: Some(namespace("GLOBAL", &[("x", "1")])),
        renders: Vec::new(),
        namespaces: vec![namespace("ns", &[("y", "2")])],
    };
    let ctx = sc.to_context();
    assert_eq!(ctx.get_global_variable("x").unwrap(), "1");
    assert_eq!(ctx.get_variable_value("y", "ns").unwrap(), "2");
    assert_eq!(ctx.get_variable_value("x", "ns").unwrap(), "1");
    assert!(ctx.get_variable_value("z", "ns").is_none());
}

#[test]
fn global_entry_replaces_global_block() {
    let sc = SerializedContext {
        global: Some(namespace("GLOBAL", &[("x", "1"), ("w", "9")])),
        renders: Vec::new(),
        namespaces: vec![namespace("GLOBAL", &[("x", "7")]), namespace("ns", &[])],
    };
    let ctx = sc.to_context();
    assert_eq!(ctx.get_global_variable("x").unwrap(), "7");
    assert!(ctx.get_global_variable("w").is_none());
    assert!(ctx.get_namespace("GLOBAL").is_none());
    assert!(ctx.get_namespace("ns").is_some());
}

#[test]
fn missing_global_block_is_empty() {
    let sc = SerializedContext { global: None, renders: Vec::new(), namespaces: Vec::new() };
    let ctx = sc.to_context();
    assert_eq!(ctx.global().name(), "GLOBAL");
    assert!(ctx.get_global_variable("x").is_none());
}

#[test]
fn renders_are_kept() {
    let sc = SerializedContext {
        global: None,
        renders: vec![("a.tpl".to_string(), "a.out".to_string())],
        namespaces: Vec::new(),
    };
    let mold = Mold::new(sc.to_context());
    assert_eq!(mold.context().renders(), &vec![("a.tpl".to_string(), "a.out".to_string())]);
}

#[test]
fn later_namespace_of_a_name_wins() {
    let sc = SerializedContext {
        global: None,
        renders: Vec::new(),
        namespaces: vec![namespace("ns", &[("x", "1")]), namespace("ns", &[("x", "2")])],
    };
    let ctx = sc.to_context();
    assert_eq!(ctx.get_variable_value("x", "ns").unwrap(), "2");
}

#[test]
fn trim_strips_unicode_white_space() {
    assert_eq!(trim(" \t\u{3000}a b\u{a0}\n"), "a b");
    assert_eq!(trim("   "), "");
    assert_eq!(trim("x"), "x");
    assert!(is_whitespace('\u{2028}'));
    assert!(!is_whitespace('x'));
}
