use read_bin::tui::{parse_component_ref_str, parse_tui_str, TemplateNode};

#[test]
fn brace_sections() {
    let src = "template { hello }\nstyle { .mode { fg: auto, bg: green }\n.sel:focus { fg: red } }\nscript [lang=\"rust\"] { fn helper() {} }\n";
    let file = parse_tui_str(src).unwrap();
    assert_eq!(file.template.nodes.len(), 1);
    match &file.template.nodes[0] {
        TemplateNode::Text(t) => assert_eq!(t, "hello"),
        _ => panic!("expected text"),
    }
    let style = file.style.unwrap();
    assert_eq!(style.rules.len(), 2);
    assert_eq!(style.rules[0].selector, ".mode");
    assert_eq!(style.rules[0].properties.len(), 2);
    assert_eq!(style.rules[0].properties[0].name, "fg");
    assert_eq!(style.rules[0].properties[0].value, "auto");
    assert_eq!(style.rules[0].properties[1].name, "bg");
    assert_eq!(style.rules[0].properties[1].value, "green");
    assert_eq!(style.rules[1].selector, ".sel:focus");
    assert_eq!(style.rules[1].properties[0].value, "red");
    let script = file.script.unwrap();
    assert_eq!(script.lang, Some("rust".to_string()));
}

#[test]
fn interpolation_and_elements() {
    let src = "template {<Text class=\"mode big\" :width=\"3\" @click=\"go\">{{ app.mode }}</Text>}";
    let file = parse_tui_str(src).unwrap();
    assert_eq!(file.template.nodes.len(), 1);
    match &file.template.nodes[0] {
        TemplateNode::Element(e) => {
            assert_eq!(e.tag, "Text");
            assert_eq!(e.classes, vec!["mode".to_string(), "big".to_string()]);
            assert_eq!(e.props.len(), 1);
            assert_eq!(e.props[0].name, "width");
            assert_eq!(e.props[0].value, "3");
            assert_eq!(e.events.len(), 1);
            assert_eq!(e.events[0].name, "click");
            assert_eq!(e.events[0].handler, "go");
            assert!(!e.self_closing);
            assert_eq!(e.children.len(), 1);
            match &e.children[0] {
                TemplateNode::Interpolation(x) => assert_eq!(x, "app.mode"),
                _ => panic!("expected an interpolation"),
            }
        }
        _ => panic!("expected an element"),
    }
}

#[test]
fn blank_after_the_last_element_is_allowed() {
    let file = parse_tui_str("template { <Text>a</Text> }").unwrap();
    assert_eq!(file.template.nodes.len(), 1);
}

#[test]
fn missing_template_is_an_error() {
    assert_eq!(
        parse_tui_str("style { .a { fg: red } }").err(),
        Some("Missing <template> block".to_string())
    );
    assert_eq!(
        parse_tui_str("widget { }").err(),
        Some("Expected 'template', 'style', or 'script', got 'widget'".to_string())
    );
}

#[test]
fn component_refs() {
    assert_eq!(parse_component_ref_str("  <Statusbar />").unwrap().tag, "Statusbar");
    assert_eq!(parse_component_ref_str("Popup").unwrap().tag, "Popup");
    assert_eq!(parse_component_ref_str("< Statusbar />").unwrap().tag, "Statusbar");
}

#[test]
fn lone_template_sections() {
    let file = parse_tui_str("  template {}  \n").unwrap();
    assert_eq!(file.template.nodes.len(), 0);
    assert!(file.style.is_none() && file.script.is_none());
    let file = parse_tui_str("template {   a line of text  }").unwrap();
    assert_eq!(file.template.nodes.len(), 1);
    match &file.template.nodes[0] {
        TemplateNode::Text(t) => assert_eq!(t, "a line of text"),
        _ => panic!("expected text"),
    }
}

#[test]
fn brace_blocks_in_templates() {
    let file = parse_tui_str("template { <p/>{{ for x in xs }}{{ x }}{{ /for }}{{ if on }}y{{ /if }}}").unwrap();
    let nodes = &file.template.nodes;
    assert_eq!(nodes.len(), 3);
    match &nodes[0] {
        TemplateNode::Element(e) => assert!(e.tag == "p" && e.self_closing && e.children.is_empty()),
        _ => panic!("expected element"),
    }
    match &nodes[1] {
        TemplateNode::ForLoop { var, iter, body } => {
            assert_eq!(var, "x");
            assert_eq!(iter, "xs");
            assert_eq!(body.len(), 1);
            match &body[0] {
                TemplateNode::Interpolation(t) => assert_eq!(t, "x"),
                _ => panic!("expected interpolation"),
            }
        }
        _ => panic!("expected for"),
    }
    match &nodes[2] {
        TemplateNode::IfCond { expr, body } => {
            assert_eq!(expr, "on");
            assert_eq!(body.len(), 1);
        }
        _ => panic!("expected if"),
    }
    assert!(parse_tui_str("template { {{ open }").is_err());
}

#[test]
fn interpolation_body_with_blanks() {
    let file = parse_tui_str("template { {{ x }} }").unwrap();
    assert_eq!(file.template.nodes.len(), 1);
    match &file.template.nodes[0] {
        TemplateNode::Interpolation(t) => assert_eq!(t, "x"),
        _ => panic!("expected interpolation"),
    }
    assert!(file.style.is_none() && file.script.is_none());
}

#[test]
fn html_style_sections() {
    let src = "<template>\n  <Statusbar>\n    <Text class=\"mode\">{{ app.mode.label() }}</Text>\n  </Statusbar>\n</template>\n\n<style>\n  .mode { fg: auto, bg: green }\n</style>\n\n<script lang=\"rust\">\n  fn helper() -> String { \"hello\".into() }\n</script>\n";
    let file = parse_tui_str(src).unwrap();
    assert_eq!(file.template.nodes.len(), 1);
    match &file.template.nodes[0] {
        TemplateNode::Element(bar) => {
            assert_eq!(bar.tag, "Statusbar");
            assert_eq!(bar.children.len(), 1);
            match &bar.children[0] {
                TemplateNode::Element(text) => {
                    assert_eq!(text.tag, "Text");
                    assert_eq!(text.classes, vec!["mode".to_string()]);
                    assert_eq!(text.children.len(), 1);
                    match &text.children[0] {
                        TemplateNode::Interpolation(t) => assert_eq!(t, "app.mode.label()"),
                        _ => panic!("expected interpolation"),
                    }
                }
                _ => panic!("expected element"),
            }
        }
        _ => panic!("expected element"),
    }
    let style = file.style.unwrap();
    assert_eq!(style.rules.len(), 1);
    assert_eq!(style.rules[0].selector, ".mode");
    assert_eq!(style.rules[0].properties.len(), 2);
    assert_eq!(style.rules[0].properties[0].name, "fg");
    assert_eq!(style.rules[0].properties[0].value, "auto");
    assert_eq!(style.rules[0].properties[1].name, "bg");
    assert_eq!(style.rules[0].properties[1].value, "green");
    assert!(file.script.is_some());
}

#[test]
fn section_errors() {
    assert_eq!(parse_tui_str("style { .a { fg: red } }").err(), Some("Missing <template> block".to_string()));
    assert_eq!(
        parse_tui_str("foo {}").err(),
        Some("Expected 'template', 'style', or 'script', got 'foo'".to_string())
    );
    assert_eq!(
        parse_tui_str("template {<A></B>}").err(),
        Some("Mismatched: expected </A>, got </B>".to_string())
    );
}

#[test]
fn script_with_lang_and_nested_braces() {
    let file = parse_tui_str("template {{{ x }}} script [lang=\"rust\"] { fn f() {} }").unwrap();
    match &file.template.nodes[0] {
        TemplateNode::Interpolation(t) => assert_eq!(t, "x"),
        _ => panic!("expected interpolation"),
    }
    assert!(file.style.is_none());
    let script = file.script.unwrap();
    assert_eq!(script.lang, Some("rust".to_string()));
    assert_eq!(script.body, " fn f() {} ");
}
