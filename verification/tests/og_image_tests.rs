use f1clash_setup::data::StatPriorities;
use f1clash_setup::og_image::{
    build_overlay, card_rect, card_title, og_font_family, og_svg, priority_label, rarity_hex, render_og_image,
    summary_row, xml_escape,
};
use f1clash_setup::share::{DriverSnapshot, PartSnapshot};

fn part(category: &str, name: &str, rarity: &str, total: i32) -> PartSnapshot {
    PartSnapshot {
        category: category.to_string(),
        part_name: name.to_string(),
        level: 5,
        rarity: rarity.to_string(),
        speed: 10,
        cornering: 10,
        power_unit: 10,
        qualifying: 10,
        pit_stop_hundredths: 100,
        total,
    }
}

fn driver(name: &str, rarity: &str, total: i32) -> DriverSnapshot {
    DriverSnapshot {
        driver_name: name.to_string(),
        rarity: rarity.to_string(),
        level: 3,
        overtaking: 1,
        defending: 1,
        qualifying: 1,
        race_start: 1,
        tyre_management: 1,
        total,
    }
}

#[test]
fn rarity_hex_colours() {
    assert_eq!(rarity_hex("Common"), "#4a90d9");
    assert_eq!(rarity_hex("Rare"), "#ed7d31");
    assert_eq!(rarity_hex("Epic"), "#b46dd8");
    assert_eq!(rarity_hex("Legendary"), "#ffd700");
    assert_eq!(rarity_hex("Podium Stars"), "#aaaaaa");
}

#[test]
fn xml_escape_escapes_the_five_characters() {
    assert_eq!(
        xml_escape("a<b & 'c' \"d\">"),
        "a&lt;b &amp; &apos;c&apos; &quot;d&quot;&gt;"
    );
    assert_eq!(xml_escape("plain"), "plain");
    assert_eq!(xml_escape(""), "");
}

#[test]
fn escaped_text_has_no_markup_characters() {
    let e = xml_escape("<script>alert('x')</script>\"");
    assert!(!e.contains('<') && !e.contains('>') && !e.contains('\'') && !e.contains('"'));
}

#[test]
fn card_helpers_write_exact_svg() {
    assert_eq!(
        card_rect(60, 482, 258, 370),
        "<rect x=\"60\" y=\"482\" width=\"258\" height=\"370\" rx=\"12\" fill=\"#080d1a\" fill-opacity=\"0.82\"/>"
    );
    assert_eq!(
        card_title(-5, 520, "PARTS"),
        "<text x=\"-5\" y=\"520\" fill=\"#4fc3f7\" font-size=\"18\" font-weight=\"bold\" font-family=\"__FONT__\">PARTS</text>"
    );
    assert_eq!(
        summary_row(1, 2, 3, "Views", "6"),
        "<text x=\"1\" y=\"3\" fill=\"#8899aa\" font-size=\"15\" font-family=\"__FONT__\">Views</text>\
<text x=\"2\" y=\"3\" fill=\"#ffffff\" font-size=\"15\" text-anchor=\"end\" font-family=\"__FONT__\">6</text>"
    );
}

#[test]
fn priority_label_joins_with_plus() {
    let p = StatPriorities { speed: true, cornering: true, power_unit: false, qualifying: false };
    assert_eq!(priority_label(&p), "Speed + Cornering");
    assert_eq!(priority_label(&StatPriorities::default()), "");
}

#[test]
fn overlay_orders_parts_and_truncates_names() {
    let parts = vec![
        part("Engine", "Engine Tempest", "Epic", 216),
        part("Front Wing", "Front Wing Zephyr", "Rare", 225),
        part("Mystery", "Odd Part", "Common", 1),
    ];
    let drivers = vec![driver("Arvid Lindblad", "Epic", 131)];
    let svg = build_overlay(
        "A very long setup name that overflows",
        "2026",
        "Speed",
        &parts,
        &drivers,
        239,
        131,
        370,
        6,
        "Apr 25, 2025",
    );
    assert!(svg.starts_with("<svg xmlns=\"http://www.w3.org/2000/svg\" width=\"1734\" height=\"907\">"));
    assert!(svg.ends_with("</svg>"));
    // name cut at 22 characters on the title and at 14 in the summary
    assert!(svg.contains(">A very long setup name\u{2026}</text>"));
    assert!(svg.contains(">A very long se\u{2026}</text>"));
    // Front Wing comes before Engine in the canonical order; unknown categories last
    let fw = svg.find("Front Wing Zephyr").unwrap();
    let en = svg.find("Engine Tempest").unwrap();
    let odd = svg.find("Odd Part").unwrap();
    assert!(fw < en && en < odd);
    assert!(svg.contains(">370</text>"));
    assert!(svg.contains("DRIVERS SCORE"));
    assert!(!svg.contains("No drivers selected"));
}

#[test]
fn overlay_without_drivers_says_so() {
    let svg = build_overlay("S", "2025", "", &[], &[], 0, 0, 0, 0, "today");
    assert!(svg.contains("No drivers selected"));
    assert!(!svg.contains("DRIVERS SCORE"));
    assert!(!svg.contains("y=\"360\""));
}

#[test]
fn og_svg_substitutes_the_font_family() {
    let p = StatPriorities { speed: true, ..Default::default() };
    let svg = og_svg("S", "2025", &p, &[], &[], 10, 20, 1, "d", "Roboto");
    assert!(!svg.contains("__FONT__"));
    assert!(svg.contains("font-family=\"Roboto\""));
    assert!(svg.contains(">30</text>"));
    assert!(svg.contains(">Speed</text>"));
}

#[test]
fn render_fails_softly_without_a_template() {
    let bytes = render_og_image("S", "2025", &StatPriorities::default(), &[], &[], 0, 0, 0, "d", &[], b"not a png");
    assert!(bytes.is_empty());
}

#[test]
fn render_over_a_blank_template_gives_a_png() {
    let template = resvg::tiny_skia::Pixmap::new(120, 63).unwrap().encode_png().unwrap();
    let parts = vec![part("engine", "Boost", "Epic", 30)];
    let bytes = render_og_image(
        "My Setup", "2025", &StatPriorities::default(), &parts, &[], 30, 0, 7, "2025-01-01", &[],
        &template,
    );
    assert!(bytes.len() > 8);
    assert_eq!(&bytes[..8], &[137u8, 80, 78, 71, 13, 10, 26, 10]);
}

#[test]
fn render_refuses_a_template_without_the_signature() {
    let mut template = resvg::tiny_skia::Pixmap::new(4, 4).unwrap().encode_png().unwrap();
    template[1] = b'Q';
    let bytes = render_og_image("S", "2025", &StatPriorities::default(), &[], &[], 0, 0, 0, "d", &[], &template);
    assert!(bytes.is_empty());
}

/// The bytes and the first family name of the first face among the
/// system fonts.
fn system_font() -> (Vec<u8>, String) {
    let mut db = resvg::usvg::fontdb::Database::new();
    db.load_system_fonts();
    let face = db.faces().next().expect("a system font");
    let family = face.families[0].0.clone();
    let data = db.with_face_data(face.id, |d, _| d.to_vec()).expect("font data");
    (data, family)
}

#[test]
fn font_family_name() {
    let (data, family) = system_font();
    assert_eq!(og_font_family(&data), family);
    assert_ne!(og_font_family(&data), "sans-serif");
}

#[test]
fn font_family_falls_back_without_a_face() {
    assert_eq!(og_font_family(&[]), "sans-serif");
    assert_eq!(og_font_family(b"not a font"), "sans-serif");
}

#[test]
fn write_png() {
    let (font, _) = system_font();
    let template = resvg::tiny_skia::Pixmap::new(1734, 907).unwrap().encode_png().unwrap();
    let parts = vec![part("engine", "Boost", "Epic", 30), part("brakes", "Grip", "Rare", 25)];
    let drivers = vec![driver("Max", "Legendary", 60)];
    let priorities = StatPriorities { speed: true, cornering: true, power_unit: false, qualifying: false };
    let bytes = render_og_image(
        "Shared Setup", "2026", &priorities, &parts, &drivers, 239, 266, 6, "Apr 25, 2025", &font, &template,
    );
    assert!(!bytes.is_empty(), "render_og_image returned empty bytes");
    assert_eq!(&bytes[..8], &[137u8, 80, 78, 71, 13, 10, 26, 10]);
    assert_ne!(bytes, template);
}
