use bbcode::color::BbCodeColor;
use bbcode::color::BbCodeColored;
use bbcode::color::Rgba;
use bbcode::color::update_colors;
use bbcode::conversion::convert_bbcode;
use bbcode::conversion::parse_hex_color;
use bbcode::conversion::trim_str;
use bbcode::conversion::BbcodeContext;
use bbcode::Bbcode;
use bbcode::BbcodePlugin;
use bbcode::BbcodeSettings;
use bbcode::BbcodeTag;
use bbcode::ColorMap;

fn rgba(red: u8, green: u8, blue: u8, alpha: u8) -> Rgba {
    Rgba { red, green, blue, alpha }
}

fn plain_context() -> BbcodeContext {
    BbcodeContext {
        font_family: "base".to_string(),
        is_bold: false,
        is_italic: false,
        color: BbCodeColor::Static(rgba(1, 2, 3, 255)),
        markers: Vec::new(),
    }
}

#[test]
fn hex_color_forms() {
    assert_eq!(parse_hex_color("#ff00ff"), Some(rgba(255, 0, 255, 255)));
    assert_eq!(parse_hex_color("ff00ff"), Some(rgba(255, 0, 255, 255)));
    assert_eq!(parse_hex_color("#f0f"), Some(rgba(255, 0, 255, 255)));
    assert_eq!(parse_hex_color("#f0f8"), Some(rgba(255, 0, 255, 136)));
    assert_eq!(parse_hex_color("#12345678"), Some(rgba(0x12, 0x34, 0x56, 0x78)));
    assert_eq!(parse_hex_color("AbCdEf"), Some(rgba(0xab, 0xcd, 0xef, 255)));
    assert_eq!(parse_hex_color("red"), None);
    assert_eq!(parse_hex_color("#ff00f"), None);
    assert_eq!(parse_hex_color(""), None);
}

#[test]
fn trim_removes_surrounding_whitespace() {
    assert_eq!(trim_str("  #fff\t\n"), "#fff");
    assert_eq!(trim_str("abc"), "abc");
    assert_eq!(trim_str("   "), "");
}

#[test]
fn apply_tag_bold_italic_font() {
    let ctx = plain_context();
    let bold = ctx.apply_tag(&BbcodeTag::new("b"));
    assert!(bold.is_bold);
    assert!(!bold.is_italic);
    let italic = ctx.apply_tag(&BbcodeTag::new("i"));
    assert!(italic.is_italic);
    let font = ctx.apply_tag(&BbcodeTag::new("font").with_simple_param("serif"));
    assert_eq!(font.font_family, "serif");
    let unknown = ctx.apply_tag(&BbcodeTag::new("quote"));
    assert_eq!(unknown.font_family, "base");
    assert!(!unknown.is_bold);
}

#[test]
fn apply_tag_color_hex_and_named() {
    let ctx = plain_context();
    let hex = ctx.apply_tag(&BbcodeTag::new("c").with_simple_param(" #ff0000 "));
    assert_eq!(hex.color, BbCodeColor::Static(rgba(255, 0, 0, 255)));
    let named = ctx.apply_tag(&BbcodeTag::new("color").with_simple_param("crimson"));
    assert_eq!(named.color, BbCodeColor::Named("crimson".to_string()));
    let missing = ctx.apply_tag(&BbcodeTag::new("c"));
    assert_eq!(missing.color, BbCodeColor::Static(rgba(1, 2, 3, 255)));
}

#[test]
fn apply_tag_markers_stack() {
    let ctx = plain_context();
    let once = ctx.apply_tag(&BbcodeTag::new("m").with_simple_param("wave"));
    let twice = once.apply_tag(&BbcodeTag::new("marker").with_simple_param("shake"));
    assert_eq!(twice.markers, vec!["wave".to_string(), "shake".to_string()]);
}

#[test]
fn color_map_insert_and_get() {
    let mut map = ColorMap::default();
    assert_eq!(map.get("rose"), None);
    map.insert("rose", rgba(250, 100, 120, 255));
    map.insert("sky", rgba(100, 150, 250, 255));
    assert_eq!(map.get("rose"), Some(rgba(250, 100, 120, 255)));
    assert_eq!(map.get("sky"), Some(rgba(100, 150, 250, 255)));
    map.insert("rose", rgba(1, 1, 1, 255));
    assert_eq!(map.get("rose"), Some(rgba(1, 1, 1, 255)));
}

#[test]
fn color_map_update_tracking() {
    let mut map = ColorMap::default();
    assert!(!map.has_update());
    map.insert("rose", rgba(9, 9, 9, 255));
    assert!(map.has_update());
    assert_eq!(map.get_update("rose"), Some(rgba(9, 9, 9, 255)));
    assert_eq!(map.get_update("sky"), None);
    map.clear_was_updated();
    assert!(!map.has_update());
    assert_eq!(map.get_update("rose"), None);
    assert_eq!(map.get("rose"), Some(rgba(9, 9, 9, 255)));
}

#[test]
fn update_colors_pass() {
    let mut map = ColorMap::default();
    map.insert("rose", rgba(9, 9, 9, 255));
    let colored = vec![
        BbCodeColored { name: "rose".to_string() },
        BbCodeColored { name: "sky".to_string() },
    ];
    let updates = update_colors(&mut map, &colored);
    assert_eq!(updates, vec![Some(rgba(9, 9, 9, 255)), None]);
    assert!(!map.has_update());
    let second = update_colors(&mut map, &colored);
    assert_eq!(second, vec![None, None]);
}

#[test]
fn to_color_resolves_names() {
    let mut map = ColorMap::default();
    map.insert("rose", rgba(9, 9, 9, 255));
    assert_eq!(BbCodeColor::Named("rose".to_string()).to_color(&map), Some(rgba(9, 9, 9, 255)));
    assert_eq!(BbCodeColor::Named("sky".to_string()).to_color(&map), None);
    assert_eq!(BbCodeColor::Static(rgba(1, 2, 3, 4)).to_color(&map), Some(rgba(1, 2, 3, 4)));
}

#[test]
fn convert_bbcode_emits_styled_runs() {
    let settings = BbcodeSettings::new("base", BbCodeColor::Static(rgba(10, 20, 30, 255)))
        .with_marker("wave");
    let map = ColorMap::default();
    let runs = convert_bbcode(
        "[b]Hello [i]world[/i][/b][m=wave][m=shake]ok[/m][/m]",
        &settings,
        &map,
    )
    .expect("the input is well-formed");
    assert_eq!(runs.len(), 3);

    assert_eq!(runs[0].text, "Hello ");
    assert!(runs[0].is_bold);
    assert!(!runs[0].is_italic);
    assert_eq!(runs[0].font_family, "base");
    assert_eq!(runs[0].color, rgba(10, 20, 30, 255));
    assert_eq!(runs[0].color_name, None);
    assert!(runs[0].markers.is_empty());

    assert_eq!(runs[1].text, "world");
    assert!(runs[1].is_bold);
    assert!(runs[1].is_italic);

    assert_eq!(runs[2].text, "ok");
    assert!(!runs[2].is_bold);
    assert_eq!(runs[2].markers, vec!["wave".to_string()]);
}

#[test]
fn convert_bbcode_resolves_named_colors() {
    let settings = BbcodeSettings::new("base", BbCodeColor::Static(rgba(0, 0, 0, 255)));
    let mut map = ColorMap::default();
    map.insert("rose", rgba(200, 100, 100, 255));
    let runs = convert_bbcode("[c=rose]a[/c][c=missing]b[/c]", &settings, &map)
        .expect("the input is well-formed");
    assert_eq!(runs.len(), 2);
    assert_eq!(runs[0].color, rgba(200, 100, 100, 255));
    assert_eq!(runs[0].color_name, Some("rose".to_string()));
    assert_eq!(runs[1].color, rgba(255, 255, 255, 255));
    assert_eq!(runs[1].color_name, Some("missing".to_string()));
}

#[test]
fn convert_bbcode_rejects_malformed_input() {
    let settings = BbcodeSettings::default();
    let map = ColorMap::default();
    assert!(convert_bbcode("[b]x", &settings, &map).is_none());
}

#[test]
fn bbcode_and_plugin_builders() {
    let bb = Bbcode::new("[b]x[/b]");
    assert_eq!(bb.content, "[b]x[/b]");
    let plugin = BbcodePlugin::new();
    assert_eq!(plugin.font_folder_path, None);
    let plugin = plugin.with_fonts("fonts/dir");
    assert_eq!(plugin.font_folder_path, Some("fonts/dir".to_string()));
}

#[test]
fn settings_marker_registry() {
    let settings = BbcodeSettings::new("base", BbCodeColor::Static(rgba(0, 0, 0, 255)))
        .with_marker("wave");
    assert!(settings.has_marker("wave"));
    assert!(!settings.has_marker("shake"));
}

#[test]
fn color_conversions() {
    assert_eq!(BbCodeColor::from(rgba(1, 2, 3, 4)), BbCodeColor::Static(rgba(1, 2, 3, 4)));
    assert_eq!(
        BbCodeColor::from("rose".to_string()),
        BbCodeColor::Named("rose".to_string())
    );
}
