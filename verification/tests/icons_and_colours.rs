use baboon::icons::{
    colorized_icon_svg, context_menu_icon, icon_for_foundation_button, svg_color, ButtonIcon,
    ChimpJsonPalette, Color32,
};

const CLEAR_SVG: &str = "<svg xmlns=\"http://www.w3.org/2000/svg\" viewBox=\"0 0 16 16\">\
<path stroke=\"currentColor\" d=\"M3 3l10 10\"/><path fill=\"currentColor\" d=\"M13 3L3 13\"/></svg>";

#[test]
fn colorized_icon_replaces_current_color() {
    let svg = colorized_icon_svg(CLEAR_SVG, Color32::from_rgb(1, 2, 3));
    assert!(svg.contains("#010203"));
    assert!(!svg.contains("currentColor"));
}

#[test]
fn colouring_an_icon_changes_nothing_else() {
    let svg = colorized_icon_svg(CLEAR_SVG, Color32::from_rgb(0xab, 0xcd, 0xef));
    assert_eq!(svg, CLEAR_SVG.replace("currentColor", "#abcdef"));
    // Adjacent and partial occurrences, as `str::replace` treats them.
    let svg = colorized_icon_svg("currentColorcurrentColor currentColo", Color32::from_rgb(0, 0, 0));
    assert_eq!(svg, "#000000#000000 currentColo");
    assert_eq!(colorized_icon_svg("", Color32::from_rgb(9, 9, 9)), "");
}

#[test]
fn an_svg_colour_is_lowercase_rrggbb() {
    assert_eq!(svg_color(Color32::from_rgb(255, 0, 16)), "#ff0010");
    assert_eq!(svg_color(Color32 { r: 1, g: 2, b: 3, a: 0 }), "#010203");
}

#[test]
fn toolbar_and_menu_labels_name_their_icons() {
    assert_eq!(icon_for_foundation_button("Open"), Some(ButtonIcon::Open));
    assert_eq!(icon_for_foundation_button("f()"), Some(ButtonIcon::Function));
    assert_eq!(icon_for_foundation_button("open"), None);
    assert_eq!(context_menu_icon("Remove from Favorites"), Some(ButtonIcon::Favourite));
    assert_eq!(context_menu_icon("Dump Tag to JSON..."), Some(ButtonIcon::Json));
    assert_eq!(context_menu_icon("Delete"), None);
}

#[test]
fn the_json_palettes_differ_by_mode() {
    let dark = ChimpJsonPalette::for_dark_mode(true);
    let light = ChimpJsonPalette::for_dark_mode(false);
    assert_eq!(dark.key, Color32::from_rgb(244, 191, 92));
    assert_eq!(light.key, Color32::from_rgb(145, 91, 0));
}
