use read_bin::app::DisplayMode;
use read_bin::config::{
    byte_style, key_value_of, parse_color, parse_rgb, parse_style_val, style_val_readable,
    styles_readable, utf8_char_style, utf8_cls_style, yaml_parse_style, ColorStyles, ConfColor,
    StyleSlot, StyleSpec,
};
use read_bin::utf8::ByteClass;

fn style(fg: Option<ConfColor>, bg: Option<ConfColor>) -> StyleSpec {
    StyleSpec { fg, bg }
}

#[test]
fn rgb_lists_are_read() {
    assert_eq!(parse_rgb("[1, 2,3]"), Some(ConfColor::Rgb(1, 2, 3)));
    assert_eq!(parse_rgb("[ 255 ,0, 9 ]"), Some(ConfColor::Rgb(255, 0, 9)));
    assert_eq!(parse_rgb("[1,2]"), Some(ConfColor::Rgb(1, 2, 0)));
    assert_eq!(parse_rgb("[+7, 0, 0]"), Some(ConfColor::Rgb(7, 0, 0)));
}

#[test]
fn rgb_lists_are_refused() {
    assert_eq!(parse_rgb("[1,2,3,4]"), None);
    assert_eq!(parse_rgb("[]"), None);
    assert_eq!(parse_rgb("[256,0,0]"), None);
    assert_eq!(parse_rgb("1,2,3"), None);
    assert_eq!(parse_rgb("[1,,3]"), None);
    assert_eq!(parse_rgb("[-1,0,0]"), None);
    assert_eq!(parse_rgb("[1,2,3"), None);
}

#[test]
fn colour_names_are_read() {
    assert_eq!(parse_color("black"), Some(ConfColor::Black));
    assert_eq!(parse_color("yellow"), Some(ConfColor::Yellow));
    assert_eq!(parse_color("darkgray"), Some(ConfColor::DarkGray));
    assert_eq!(parse_color("dark_gray"), Some(ConfColor::DarkGray));
    assert_eq!(parse_color("[10, 20, 30]"), Some(ConfColor::Rgb(10, 20, 30)));
    assert_eq!(parse_color("auto"), None);
    assert_eq!(parse_color("Red"), None);
    assert_eq!(parse_color("purple"), None);
}

#[test]
fn style_values_are_read() {
    assert_eq!(parse_style_val("{}"), Some(style(None, None)));
    assert_eq!(parse_style_val("  { }  "), Some(style(None, None)));
    assert_eq!(
        parse_style_val("{ fg: auto, bg: yellow }"),
        Some(style(Some(ConfColor::Rgb(1, 1, 1)), Some(ConfColor::Yellow)))
    );
    assert_eq!(parse_style_val("{ fg: auto }"), Some(style(None, None)));
    assert_eq!(
        parse_style_val("{ fg: [10, 20, 30], bg: blue }"),
        Some(style(Some(ConfColor::Rgb(10, 20, 30)), Some(ConfColor::Blue)))
    );
    assert_eq!(parse_style_val("{fg:red,bg:[1,2]}"), Some(style(Some(ConfColor::Red), Some(ConfColor::Rgb(1, 2, 0)))));
    assert_eq!(parse_style_val("{ fg: red, size: blue, bg }"), Some(style(Some(ConfColor::Red), None)));
    assert_eq!(parse_style_val("{ fg: red, fg: green }"), Some(style(Some(ConfColor::Green), None)));
    assert_eq!(parse_style_val("{ fg: red } trailing"), Some(style(Some(ConfColor::Red), None)));
    assert_eq!(parse_style_val("red"), None);
}

#[test]
fn style_of_a_key_at_line_start() {
    let text = "null:      { fg: [90, 90, 90] }\ncursor:    { fg: auto, bg: yellow }\nfound:{fg:red}\n";
    assert_eq!(yaml_parse_style(text, "null"), Some(style(Some(ConfColor::Rgb(90, 90, 90)), None)));
    assert_eq!(
        yaml_parse_style(text, "cursor"),
        Some(style(Some(ConfColor::Rgb(1, 1, 1)), Some(ConfColor::Yellow)))
    );
    assert_eq!(yaml_parse_style(text, "found"), Some(style(Some(ConfColor::Red), None)));
    assert_eq!(yaml_parse_style(text, "tail"), None);
}

#[test]
fn key_inside_a_line_is_passed_over() {
    let text = "mycursor: { bg: red }\n  cursor: { bg: green }\ncursor: { bg: blue }\n";
    assert_eq!(yaml_parse_style(text, "cursor"), Some(style(None, Some(ConfColor::Blue))));
    assert_eq!(yaml_parse_style("cursorcursor : { bg: red }", "cursor"), Some(style(None, Some(ConfColor::Red))));
    assert_eq!(yaml_parse_style("cursor { bg: red }", "cursor"), None);
    assert_eq!(yaml_parse_style("cursor: red", "cursor"), None);
}

const DEFAULT_TEXT: &str = r#"
null:      { fg: auto, bg: red }
control:   { fg: auto, bg: blue }
blank:     { fg: auto, bg: cyan }
ascii:     { fg: auto }
hex:       { fg: auto, bg: green }
head2:     { fg: auto, bg: blue }
head3:     { fg: auto, bg: magenta }
head4:     { fg: auto, bg: red }
tail:      { fg: auto, bg: yellow }
unknown:   { fg: auto, bg: red }
cursor:    { fg: auto, bg: yellow }
selection: { fg: auto, bg: green }
found:     { fg: auto, bg: yellow }
focused_button: { fg: auto, bg: white }

dim:
  global: 0.8
"#;

#[test]
fn built_in_configuration_is_read() {
    assert!(styles_readable(DEFAULT_TEXT));
    let st = ColorStyles::parse(DEFAULT_TEXT);
    let auto = Some(ConfColor::Rgb(1, 1, 1));
    assert_eq!(st.null, style(auto, Some(ConfColor::Red)));
    assert_eq!(st.ascii, style(None, None));
    assert_eq!(st.hex, style(auto, Some(ConfColor::Green)));
    assert_eq!(st.head3, style(auto, Some(ConfColor::Magenta)));
    assert_eq!(st.focused_button, style(auto, Some(ConfColor::White)));
    assert_eq!(st.sp(StyleSlot::Cursor), style(auto, Some(ConfColor::Yellow)));
    assert_eq!(st.sp(StyleSlot::Selection), style(auto, Some(ConfColor::Green)));
    assert_eq!(st.sp(StyleSlot::Plain), style(None, None));
}

#[test]
fn missing_keys_fall_back() {
    let st = ColorStyles::parse("cursor: { bg: blue }\n");
    let gray = style(Some(ConfColor::Rgb(220, 220, 220)), None);
    assert_eq!(st.null, gray);
    assert_eq!(st.control, gray);
    assert_eq!(st.blank, gray);
    assert_eq!(st.ascii, gray);
    assert_eq!(st.hex, gray);
    assert_eq!(st.head2, style(None, None));
    assert_eq!(st.found, style(None, None));
    assert_eq!(st.cursor, style(None, Some(ConfColor::Blue)));
}

#[test]
fn unclosed_style_values_are_detected() {
    assert!(style_val_readable("{ fg: red }"));
    assert!(style_val_readable("red"));
    assert!(style_val_readable("{}"));
    assert!(!style_val_readable("{ fg: red"));
    assert!(!style_val_readable("{ fg: {red }"));
    assert!(!styles_readable("found: { bg: red\n"));
    assert!(styles_readable("found: red\n"));
    assert_eq!(key_value_of("x\nfound :  { bg: red }", "found"), Some("{ bg: red }".to_string()));
    assert_eq!(key_value_of("found { bg: red }", "found"), None);
}

#[test]
fn byte_slots_follow_the_mode() {
    assert_eq!(byte_style(0, DisplayMode::Ascii), StyleSlot::Null);
    assert_eq!(byte_style(0x0d, DisplayMode::Ascii), StyleSlot::Head2);
    assert_eq!(byte_style(0x20, DisplayMode::Ascii), StyleSlot::Ascii);
    assert_eq!(byte_style(0x1b, DisplayMode::Ascii), StyleSlot::Control);
    assert_eq!(byte_style(b'A', DisplayMode::Ascii), StyleSlot::Ascii);
    assert_eq!(byte_style(0x90, DisplayMode::Ascii), StyleSlot::Head3);
    assert_eq!(byte_style(0xff, DisplayMode::Ascii), StyleSlot::Head4);
    assert_eq!(byte_style(0x20, DisplayMode::Hex), StyleSlot::Hex);
    assert_eq!(byte_style(10, DisplayMode::Hex), StyleSlot::Ascii);
    assert_eq!(byte_style(0x7f, DisplayMode::Hex), StyleSlot::Head4);
    assert_eq!(byte_style(0, DisplayMode::Utf8), StyleSlot::Ascii);
}

#[test]
fn character_slots_follow_the_block() {
    assert_eq!(utf8_char_style('a'), StyleSlot::Ascii);
    assert_eq!(utf8_char_style('\n'), StyleSlot::Head3);
    assert_eq!(utf8_char_style('\u{1}'), StyleSlot::Control);
    assert_eq!(utf8_char_style('\u{a9}'), StyleSlot::Tail);
    assert_eq!(utf8_char_style('\u{2014}'), StyleSlot::Head4);
    assert_eq!(utf8_char_style('中'), StyleSlot::Head2);
    assert_eq!(utf8_char_style('한'), StyleSlot::Head3);
    assert_eq!(utf8_char_style('あ'), StyleSlot::Head4);
    assert_eq!(utf8_char_style('é'), StyleSlot::Hex);
    assert_eq!(utf8_cls_style(ByteClass::Duo), StyleSlot::Head2);
    assert_eq!(utf8_cls_style(ByteClass::Tail), StyleSlot::Tail);
    assert_eq!(utf8_cls_style(ByteClass::Invalid), StyleSlot::Plain);
}
