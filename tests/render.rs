use mold::{
    Mold, Namespace, RenderError, SerializedContext, GLOBAL_NS, MAX_DEPTH,
};

fn namespace(name: &str, vars: &[(&str, &str)]) -> Namespace {
    let mut ns = Namespace::new(name.to_string());
    for (k, v) in vars {
        ns.set(k.to_string(), v.to_string());
    }
    ns
}

fn mold_with(global: &[(&str, &str)], namespaces: Vec<Namespace>) -> Mold {
    let sc = SerializedContext {
        global: Some(namespace(GLOBAL_NS, global)),
        renders: Vec::new(),
        namespaces,
    };
    Mold::new(sc.to_context())
}

#[test]
fn plain_text_renders_unchanged() {
    let mold = mold_with(&[("x", "1")], vec![namespace("ns", &[("x", "2")])]);
    let text = "no tags here % @ } ~ at all\n  x %}";
    for ns in [None, Some("ns"), Some("other")] {
        for raw in [false, true] {
            assert_eq!(mold.render(text, ns, raw).unwrap(), text);
        }
    }
    assert_eq!(mold.render("", None, false).unwrap(), "");
}

#[test]
fn namespace_falls_back_to_global() {
    let mold = mold_with(&[("x", "1")], vec![namespace("ns", &[("y", "5")])]);
    assert_eq!(mold.render("{% x %}", Some("ns"), false).unwrap(), "1");
}

#[test]
fn namespace_shadows_global() {
    let mold = mold_with(&[("x", "1")], vec![namespace("ns", &[("x", "2")])]);
    assert_eq!(mold.render("{% x %}", Some("ns"), false).unwrap(), "2");
    assert_eq!(mold.render("{% x %}", None, false).unwrap(), "1");
}

#[test]
fn unknown_namespace_uses_global() {
    let mold = mold_with(&[("x", "1")], vec![namespace("ns", &[("x", "2")])]);
    assert_eq!(mold.render("<{% x %}>", Some("nope"), false).unwrap(), "<1>");
}

#[test]
fn missing_variable_renders_nothing() {
    let mold = mold_with(&[("x", "1")], Vec::new());
    assert_eq!(mold.render("{% y %}", None, false).unwrap(), "");
    assert_eq!(mold.render("a{% y %}b", None, false).unwrap(), "ab");
}

#[test]
fn missing_variable_raw_keeps_tag() {
    let mold = mold_with(&[("x", "1")], Vec::new());
    assert_eq!(mold.render("{%  y  %}", None, true).unwrap(), "{%  y  %}");
    assert_eq!(mold.render("{%y%}", Some("ns"), true).unwrap(), "{%y%}");
}

#[test]
fn nested_value_expands() {
    let mold = mold_with(&[("a", "{% b %}"), ("b", "done")], Vec::new());
    assert_eq!(mold.render("{% a %}", None, false).unwrap(), "done");
}

#[test]
fn nested_value_uses_selected_namespace() {
    let mold = mold_with(
        &[("a", "[{% b %}]"), ("b", "global")],
        vec![namespace("ns", &[("b", "local")])],
    );
    assert_eq!(mold.render("{% a %}", Some("ns"), false).unwrap(), "[local]");
    assert_eq!(mold.render("{% a %}", None, false).unwrap(), "[global]");
}

#[test]
fn nested_value_that_fails_to_parse_stays_as_is() {
    let mold = mold_with(&[("a", "x {@ open")], Vec::new());
    assert_eq!(mold.render("<{% a %}>", None, false).unwrap(), "<x {@ open>");
}

#[test]
fn include_trimmed() {
    let mut mold = mold_with(&[], Vec::new());
    mold.add_include("f.txt".to_string(), "  hi  \n".to_string());
    assert_eq!(mold.render("[{@~ f.txt ~@}]", None, false).unwrap(), "[hi]");
}

#[test]
fn include_untrimmed() {
    let mut mold = mold_with(&[], Vec::new());
    mold.add_include("f.txt".to_string(), "  hi  \n".to_string());
    assert_eq!(mold.render("[{@ f.txt @}]", None, false).unwrap(), "[  hi  \n]");
}

#[test]
fn included_contents_are_rendered() {
    let mut mold = mold_with(&[("x", "1")], Vec::new());
    mold.add_include("f".to_string(), "x={% x %}".to_string());
    assert_eq!(mold.render("{@f@}", None, false).unwrap(), "x=1");
}

#[test]
fn include_without_contents_is_reported() {
    let mold = mold_with(&[], Vec::new());
    match mold.render("a {@  dir/f.txt  @} b", None, false) {
        Err(RenderError::IncludeUnavailable { path }) => assert_eq!(path, "dir/f.txt"),
        other => panic!("unexpected {:?}", other),
    }
}

#[test]
fn include_in_value_is_reported() {
    let mold = mold_with(&[("a", "{@ g @}")], Vec::new());
    match mold.render("{% a %}", None, false) {
        Err(RenderError::IncludeUnavailable { path }) => assert_eq!(path, "g"),
        other => panic!("unexpected {:?}", other),
    }
}

#[test]
fn unterminated_include_fails() {
    let mold = mold_with(&[("x", "1")], Vec::new());
    match mold.render("{% x %} {@ path", None, false) {
        Err(RenderError::Parse(e)) => assert_eq!(e.position, 8),
        other => panic!("unexpected {:?}", other),
    }
}

#[test]
fn unterminated_trim_include_fails() {
    let mold = mold_with(&[], Vec::new());
    match mold.render("{@~ path @}", None, false) {
        Err(RenderError::Parse(e)) => assert_eq!(e.position, 0),
        other => panic!("unexpected {:?}", other),
    }
}

#[test]
fn self_reference_exceeds_depth() {
    let mold = mold_with(&[("a", "{% a %}")], Vec::new());
    match mold.render("{% a %}", None, false) {
        Err(RenderError::DepthExceeded) => {}
        other => panic!("unexpected {:?}", other),
    }
}

#[test]
fn mutual_reference_exceeds_depth() {
    let mold = mold_with(&[("a", "x{% b %}"), ("b", "y{% a %}")], Vec::new());
    match mold.render("{% a %}", None, true) {
        Err(RenderError::DepthExceeded) => {}
        other => panic!("unexpected {:?}", other),
    }
}

#[test]
fn deep_chain_within_limit() {
    let mut vars: Vec<(String, String)> = Vec::new();
    for i in 0..MAX_DEPTH {
        vars.push((format!("v{}", i), format!("{{% v{} %}}", i + 1)));
    }
    vars.push((format!("v{}", MAX_DEPTH), "end".to_string()));
    let mut global = Namespace::global();
    for (k, v) in vars {
        global.set(k, v);
    }
    let sc = SerializedContext { global: Some(global), renders: Vec::new(), namespaces: Vec::new() };
    let mold = Mold::new(sc.to_context());
    assert_eq!(mold.render("{% v1 %}", None, false).unwrap(), "end");
    match mold.render("{% v0 %}", None, false) {
        Err(RenderError::DepthExceeded) => {}
        other => panic!("unexpected {:?}", other),
    }
}

#[test]
fn unterminated_variable_tag_is_text() {
    let mold = mold_with(&[("x", "1")], Vec::new());
    assert_eq!(mold.render("{% x {% x %}", None, false).unwrap(), "{% x 1");
    assert_eq!(mold.render("{%x y%}", None, true).unwrap(), "{%x y%}");
}

#[test]
fn later_entry_for_a_key_wins() {
    let mold = mold_with(&[("x", "1"), ("x", "3")], Vec::new());
    assert_eq!(mold.render("{%x%}", None, false).unwrap(), "3");
}

#[test]
fn unreadable_include_in_value_keeps_value() {
    let mut mold = mold_with(&[("a", "{@ f @}")], Vec::new());
    mold.add_unreadable_include("f".to_string());
    assert_eq!(mold.render("<{% a %}>", None, false).unwrap(), "<{@ f @}>");
}

#[test]
fn unreadable_include_at_top_level_fails() {
    let mut mold = mold_with(&[], Vec::new());
    mold.add_unreadable_include("f".to_string());
    assert_eq!(
        mold.render("x {@~ f ~@}", None, false),
        Err(RenderError::IncludeRead { path: "f".to_string() })
    );
}

#[test]
fn unreadable_include_inside_included_file_fails() {
    let mut mold = mold_with(&[], Vec::new());
    mold.add_include("outer".to_string(), "[{@ inner @}]".to_string());
    mold.add_unreadable_include("inner".to_string());
    assert_eq!(
        mold.render("{@ outer @}", None, false),
        Err(RenderError::IncludeRead { path: "inner".to_string() })
    );
}

#[test]
fn later_include_entry_wins() {
    let mut mold = mold_with(&[], Vec::new());
    mold.add_unreadable_include("f".to_string());
    mold.add_include("f".to_string(), "ok".to_string());
    assert_eq!(mold.render("{@ f @}", None, false).unwrap(), "ok");
}

#[test]
fn configured_depth_bound() {
    let sc = SerializedContext {
        global: Some(namespace(GLOBAL_NS, &[("a", "{% b %}"), ("b", "done")])),
        renders: Vec::new(),
        namespaces: Vec::new(),
    };
    let shallow = Mold::with_max_depth(sc.to_context(), 1);
    assert_eq!(shallow.max_depth(), 1);
    assert_eq!(shallow.render("{% b %}", None, false).unwrap(), "done");
    assert_eq!(shallow.render("{% a %}", None, false), Err(RenderError::DepthExceeded));
    let sc = SerializedContext {
        global: Some(namespace(GLOBAL_NS, &[("a", "{% b %}"), ("b", "done")])),
        renders: Vec::new(),
        namespaces: Vec::new(),
    };
    let deeper = Mold::with_max_depth(sc.to_context(), 2);
    assert_eq!(deeper.render("{% a %}", None, false).unwrap(), "done");
    assert_eq!(Mold::new(SerializedContext { global: None, renders: Vec::new(), namespaces: Vec::new() }.to_context()).max_depth(), MAX_DEPTH);
}
