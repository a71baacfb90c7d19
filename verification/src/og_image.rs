//! The 1734×907 preview card of a shared setup (og:image): an SVG overlay of
//! text and card shapes, composited over a PNG background.
//!
//! The overlay names its font `__FONT__`; rendering substitutes the family
//! of the bundled font.

use vstd::prelude::*;

use resvg::tiny_skia::Pixmap;
use resvg::usvg::fontdb::Database;
use resvg::usvg::Tree;

use crate::data::StatPriorities;
use crate::share::{
    in_category_order, part_views, sort_by_category, DriverSnapView, DriverSnapshot, PartSnapView,
    PartSnapshot,
};
use crate::text::{
    dec_int, join, join_spec, push_char, push_i64, push_str, replace_all, replace_spec, str_eq,
    string_of,
};

verus! {

// ── Colour helpers ────────────────────────────────────────────────────────────

/// The card colour of a rarity.
pub open spec fn rarity_hex_spec(rarity: Seq<char>) -> Seq<char> {
    if rarity == "Common"@ {
        "#4a90d9"@
    } else if rarity == "Rare"@ {
        "#ed7d31"@
    } else if rarity == "Epic"@ {
        "#b46dd8"@
    } else if rarity == "Legendary"@ {
        "#ffd700"@
    } else {
        "#aaaaaa"@
    }
}

/// The card colour of a rarity.
pub fn rarity_hex(rarity: &str) -> (r: &'static str)
    ensures
        r@ == rarity_hex_spec(rarity@),
{
    if str_eq(rarity, "Common") {
        "#4a90d9"
    } else if str_eq(rarity, "Rare") {
        "#ed7d31"
    } else if str_eq(rarity, "Epic") {
        "#b46dd8"
    } else if str_eq(rarity, "Legendary") {
        "#ffd700"
    } else {
        "#aaaaaa"
    }
}

/// The XML escape of one character.
pub open spec fn escape_char(c: char) -> Seq<char> {
    if c == '&' {
        "&amp;"@
    } else if c == '<' {
        "&lt;"@
    } else if c == '>' {
        "&gt;"@
    } else if c == '"' {
        "&quot;"@
    } else if c == '\'' {
        "&apos;"@
    } else {
        seq![c]
    }
}

/// `s` with `&`, `<`, `>`, `"` and `'` replaced by their XML entities.
pub open spec fn xml_escape_spec(s: Seq<char>) -> Seq<char>
    decreases s.len(),
{
    if s.len() == 0 {
        Seq::empty()
    } else {
        xml_escape_spec(s.drop_last()) + escape_char(s.last())
    }
}

/// Escapes `&`, `<`, `>`, `"` and `'` for XML text and attributes.
pub fn xml_escape(s: &str) -> (r: String)
    ensures
        r@ == xml_escape_spec(s@),
{
    let cs = crate::text::chars_of(s);
    let mut out = String::new();
    let mut i: usize = 0;
    while i < cs.len()
        invariant
            0 <= i <= cs@.len(),
            cs@ == s@,
            out@ == xml_escape_spec(s@.take(i as int)),
        decreases cs@.len() - i,
    {
        let c = cs[i];
        let ghost before = out@;
        if c == '&' {
            push_str(&mut out, "&amp;");
        } else if c == '<' {
            push_str(&mut out, "&lt;");
        } else if c == '>' {
            push_str(&mut out, "&gt;");
        } else if c == '"' {
            push_str(&mut out, "&quot;");
        } else if c == '\'' {
            push_str(&mut out, "&apos;");
        } else {
            push_char(&mut out, c);
            assert(before.push(c) =~= before + seq![c]);
        }
        assert(s@.take(i as int + 1).drop_last() =~= s@.take(i as int));
        i = i + 1;
    }
    assert(s@.take(cs@.len() as int) =~= s@);
    out
}

/// Escaped text holds no `<`, `>`, `"` or `'`: it cannot open or close a tag
/// or an attribute.
pub proof fn law_escape_removes_markup(s: Seq<char>)
    ensures
        forall|i: int|
            0 <= i < xml_escape_spec(s).len() ==> {
                let c = #[trigger] xml_escape_spec(s)[i];
                c != '<' && c != '>' && c != '"' && c != '\''
            },
    decreases s.len(),
{
    reveal_strlit("&amp;");
    reveal_strlit("&lt;");
    reveal_strlit("&gt;");
    reveal_strlit("&quot;");
    reveal_strlit("&apos;");
    if s.len() > 0 {
        law_escape_removes_markup(s.drop_last());
        let a = xml_escape_spec(s.drop_last());
        let e = escape_char(s.last());
        assert forall|i: int| 0 <= i < xml_escape_spec(s).len() implies ({
            let c = #[trigger] xml_escape_spec(s)[i];
            c != '<' && c != '>' && c != '"' && c != '\''
        }) by {
            if i < a.len() {
                assert(xml_escape_spec(s)[i] == a[i]);
            } else {
                assert(xml_escape_spec(s)[i] == e[i - a.len()]);
            }
        }
    }
}

// ── SVG helpers ───────────────────────────────────────────────────────────────

/// A rounded card background at `(x, y)` of size `w`×`h`.
pub open spec fn card_rect_spec(x: int, y: int, w: int, h: int) -> Seq<char> {
    "<rect x=\""@ + dec_int(x) + "\" y=\""@ + dec_int(y) + "\" width=\""@ + dec_int(w)
        + "\" height=\""@ + dec_int(h) + "\" rx=\"12\" fill=\"#080d1a\" fill-opacity=\"0.82\"/>"@
}

/// A rounded card background at `(x, y)` of size `w`×`h`.
pub fn card_rect(x: i32, y: i32, w: i32, h: i32) -> (r: String)
    ensures
        r@ == card_rect_spec(x as int, y as int, w as int, h as int),
{
    let mut s = string_of("<rect x=\"");
    push_i64(&mut s, x as i64);
    push_str(&mut s, "\" y=\"");
    push_i64(&mut s, y as i64);
    push_str(&mut s, "\" width=\"");
    push_i64(&mut s, w as i64);
    push_str(&mut s, "\" height=\"");
    push_i64(&mut s, h as i64);
    push_str(&mut s, "\" rx=\"12\" fill=\"#080d1a\" fill-opacity=\"0.82\"/>");
    s
}

/// A card's title text at `(x, y)`.
pub open spec fn card_title_spec(x: int, y: int, label: Seq<char>) -> Seq<char> {
    "<text x=\""@ + dec_int(x) + "\" y=\""@ + dec_int(y)
        + "\" fill=\"#4fc3f7\" font-size=\"18\" font-weight=\"bold\" font-family=\"__FONT__\">"@
        + label + "</text>"@
}

/// A card's title text at `(x, y)`.
pub fn card_title(x: i32, y: i32, label: &str) -> (r: String)
    ensures
        r@ == card_title_spec(x as int, y as int, label@),
{
    let mut s = string_of("<text x=\"");
    push_i64(&mut s, x as i64);
    push_str(&mut s, "\" y=\"");
    push_i64(&mut s, y as i64);
    push_str(
        &mut s,
        "\" fill=\"#4fc3f7\" font-size=\"18\" font-weight=\"bold\" font-family=\"__FONT__\">",
    );
    push_str(&mut s, label);
    push_str(&mut s, "</text>");
    s
}

/// A summary row: `label` at `lx` and `value` right-aligned at `rx`, both at `y`.
pub open spec fn summary_row_spec(lx: int, rx: int, y: int, label: Seq<char>, value: Seq<char>) -> Seq<
    char,
> {
    "<text x=\""@ + dec_int(lx) + "\" y=\""@ + dec_int(y)
        + "\" fill=\"#8899aa\" font-size=\"15\" font-family=\"__FONT__\">"@ + label
        + "</text><text x=\""@ + dec_int(rx) + "\" y=\""@ + dec_int(y)
        + "\" fill=\"#ffffff\" font-size=\"15\" text-anchor=\"end\" font-family=\"__FONT__\">"@
        + value + "</text>"@
}

/// A summary row: `label` at `lx` and `value` right-aligned at `rx`, both at `y`.
pub fn summary_row(lx: i32, rx: i32, y: i32, label: &str, value: &str) -> (r: String)
    ensures
        r@ == summary_row_spec(lx as int, rx as int, y as int, label@, value@),
{
    let mut s = string_of("<text x=\"");
    push_i64(&mut s, lx as i64);
    push_str(&mut s, "\" y=\"");
    push_i64(&mut s, y as i64);
    push_str(&mut s, "\" fill=\"#8899aa\" font-size=\"15\" font-family=\"__FONT__\">");
    push_str(&mut s, label);
    push_str(&mut s, "</text><text x=\"");
    push_i64(&mut s, rx as i64);
    push_str(&mut s, "\" y=\"");
    push_i64(&mut s, y as i64);
    push_str(
        &mut s,
        "\" fill=\"#ffffff\" font-size=\"15\" text-anchor=\"end\" font-family=\"__FONT__\">",
    );
    push_str(&mut s, value);
    push_str(&mut s, "</text>");
    s
}


// ── Overlay sections ──────────────────────────────────────────────────────────

/// `name` cut to its first `n` characters followed by `…` when it is longer.
pub open spec fn truncate_name(name: Seq<char>, n: int) -> Seq<char> {
    if name.len() > n {
        name.take(n).push('\u{2026}')
    } else {
        name
    }
}

/// `name` cut to its first `n` characters followed by `…` when it is longer.
fn truncate_chars(name: &str, n: usize) -> (r: String)
    ensures
        r@ == truncate_name(name@, n as int),
{
    let cs = crate::text::chars_of(name);
    if cs.len() > n {
        let mut out = String::new();
        let mut i: usize = 0;
        while i < n
            invariant
                n < cs@.len(),
                cs@ == name@,
                0 <= i <= n,
                out@ == name@.take(i as int),
            decreases n - i,
        {
            push_char(&mut out, cs[i]);
            assert(name@.take(i as int + 1) =~= name@.take(i as int).push(cs@[i as int]));
            i = i + 1;
        }
        push_char(&mut out, '\u{2026}');
        out
    } else {
        string_of(name)
    }
}

/// The header of the card: title, setup name, season badge, tagline and
/// priority label.
pub open spec fn top_section_spec(name: Seq<char>, season: Seq<char>, priority_label: Seq<char>) -> Seq<
    char,
> {
    "<text x=\"60\" y=\"148\" fill=\"#4fc3f7\" font-size=\"20\" font-weight=\"bold\" letter-spacing=\"2\" font-family=\"__FONT__\">F1 SETUP</text>"@
        + "<text x=\"60\" y=\"232\" fill=\"#ffffff\" font-size=\"64\" font-weight=\"bold\" font-family=\"__FONT__\">"@
        + xml_escape_spec(truncate_name(name, 22)) + "</text>"@
        + "<rect x=\"60\" y=\"250\" width=\"172\" height=\"38\" rx=\"19\" fill=\"#1e2d5a\"/>"@
        + "<text x=\"146\" y=\"275\" fill=\"#ffffff\" font-size=\"20\" text-anchor=\"middle\" font-family=\"__FONT__\">Season "@
        + xml_escape_spec(season) + "</text>"@
        + "<text x=\"60\" y=\"330\" fill=\"#8899aa\" font-size=\"21\" font-family=\"__FONT__\">Optimized. Tested. Shared to win.</text>"@
        + if priority_label.len() == 0 {
        Seq::empty()
    } else {
        "<text x=\"60\" y=\"360\" fill=\"#4fc3f7\" font-size=\"17\" font-family=\"__FONT__\">"@
            + xml_escape_spec(priority_label) + "</text>"@
    }
}

fn top_section(name: &str, season: &str, priority_label: &str) -> (r: String)
    ensures
        r@ == top_section_spec(name@, season@, priority_label@),
{
    let mut s = string_of(
        "<text x=\"60\" y=\"148\" fill=\"#4fc3f7\" font-size=\"20\" font-weight=\"bold\" letter-spacing=\"2\" font-family=\"__FONT__\">F1 SETUP</text>",
    );
    push_str(
        &mut s,
        "<text x=\"60\" y=\"232\" fill=\"#ffffff\" font-size=\"64\" font-weight=\"bold\" font-family=\"__FONT__\">",
    );
    let name_display = truncate_chars(name, 22);
    let esc_name = xml_escape(name_display.as_str());
    push_str(&mut s, esc_name.as_str());
    push_str(&mut s, "</text>");
    push_str(&mut s, "<rect x=\"60\" y=\"250\" width=\"172\" height=\"38\" rx=\"19\" fill=\"#1e2d5a\"/>");
    push_str(
        &mut s,
        "<text x=\"146\" y=\"275\" fill=\"#ffffff\" font-size=\"20\" text-anchor=\"middle\" font-family=\"__FONT__\">Season ",
    );
    let esc_season = xml_escape(season);
    push_str(&mut s, esc_season.as_str());
    push_str(&mut s, "</text>");
    push_str(
        &mut s,
        "<text x=\"60\" y=\"330\" fill=\"#8899aa\" font-size=\"21\" font-family=\"__FONT__\">Optimized. Tested. Shared to win.</text>",
    );
    let label_chars = crate::text::chars_of(priority_label);
    if label_chars.len() != 0 {
        let ghost before = s@;
        push_str(
            &mut s,
            "<text x=\"60\" y=\"360\" fill=\"#4fc3f7\" font-size=\"17\" font-family=\"__FONT__\">",
        );
        let esc_label = xml_escape(priority_label);
        push_str(&mut s, esc_label.as_str());
        push_str(&mut s, "</text>");
        assert(s@ =~= before + ("<text x=\"60\" y=\"360\" fill=\"#4fc3f7\" font-size=\"17\" font-family=\"__FONT__\">"@
            + xml_escape_spec(priority_label@) + "</text>"@));
    } else {
        assert(s@ =~= s@ + Seq::<char>::empty());
    }
    s
}

/// The stats bar: views, total score and parts score.
pub open spec fn stats_bar_spec(view_count: int, combined: int, parts_total: int) -> Seq<char> {
    "<rect x=\"60\" y=\"378\" width=\"790\" height=\"88\" rx=\"12\" fill=\"#080d1a\" fill-opacity=\"0.82\"/>"@
        + "<line x1=\"323\" y1=\"394\" x2=\"323\" y2=\"450\" stroke=\"#2a3a4a\" stroke-width=\"1\"/>"@
        + "<line x1=\"587\" y1=\"394\" x2=\"587\" y2=\"450\" stroke=\"#2a3a4a\" stroke-width=\"1\"/>"@
        + "<text x=\"192\" y=\"419\" fill=\"#ffffff\" font-size=\"30\" font-weight=\"bold\" text-anchor=\"middle\" font-family=\"__FONT__\">"@
        + dec_int(view_count)
        + "</text><text x=\"192\" y=\"441\" fill=\"#8899aa\" font-size=\"13\" text-anchor=\"middle\" font-family=\"__FONT__\">VIEWS</text>"@
        + "<text x=\"455\" y=\"419\" fill=\"#ffd700\" font-size=\"30\" font-weight=\"bold\" text-anchor=\"middle\" font-family=\"__FONT__\">"@
        + dec_int(combined)
        + "</text><text x=\"455\" y=\"441\" fill=\"#8899aa\" font-size=\"13\" text-anchor=\"middle\" font-family=\"__FONT__\">TOTAL SCORE</text>"@
        + "<text x=\"719\" y=\"419\" fill=\"#b46dd8\" font-size=\"30\" font-weight=\"bold\" text-anchor=\"middle\" font-family=\"__FONT__\">"@
        + dec_int(parts_total)
        + "</text><text x=\"719\" y=\"441\" fill=\"#8899aa\" font-size=\"13\" text-anchor=\"middle\" font-family=\"__FONT__\">PARTS SCORE</text>"@
}

fn stats_bar(view_count: i32, combined: i64, parts_total: i64) -> (r: String)
    ensures
        r@ == stats_bar_spec(view_count as int, combined as int, parts_total as int),
{
    let mut s = string_of(
        "<rect x=\"60\" y=\"378\" width=\"790\" height=\"88\" rx=\"12\" fill=\"#080d1a\" fill-opacity=\"0.82\"/>",
    );
    push_str(&mut s, "<line x1=\"323\" y1=\"394\" x2=\"323\" y2=\"450\" stroke=\"#2a3a4a\" stroke-width=\"1\"/>");
    push_str(&mut s, "<line x1=\"587\" y1=\"394\" x2=\"587\" y2=\"450\" stroke=\"#2a3a4a\" stroke-width=\"1\"/>");
    push_str(
        &mut s,
        "<text x=\"192\" y=\"419\" fill=\"#ffffff\" font-size=\"30\" font-weight=\"bold\" text-anchor=\"middle\" font-family=\"__FONT__\">",
    );
    push_i64(&mut s, view_count as i64);
    push_str(
        &mut s,
        "</text><text x=\"192\" y=\"441\" fill=\"#8899aa\" font-size=\"13\" text-anchor=\"middle\" font-family=\"__FONT__\">VIEWS</text>",
    );
    push_str(
        &mut s,
        "<text x=\"455\" y=\"419\" fill=\"#ffd700\" font-size=\"30\" font-weight=\"bold\" text-anchor=\"middle\" font-family=\"__FONT__\">",
    );
    push_i64(&mut s, combined);
    push_str(
        &mut s,
        "</text><text x=\"455\" y=\"441\" fill=\"#8899aa\" font-size=\"13\" text-anchor=\"middle\" font-family=\"__FONT__\">TOTAL SCORE</text>",
    );
    push_str(
        &mut s,
        "<text x=\"719\" y=\"419\" fill=\"#b46dd8\" font-size=\"30\" font-weight=\"bold\" text-anchor=\"middle\" font-family=\"__FONT__\">",
    );
    push_i64(&mut s, parts_total);
    push_str(
        &mut s,
        "</text><text x=\"719\" y=\"441\" fill=\"#8899aa\" font-size=\"13\" text-anchor=\"middle\" font-family=\"__FONT__\">PARTS SCORE</text>",
    );
    s
}


/// The row of the `i`-th part on the parts card.
pub open spec fn part_row_spec(i: int, p: PartSnapView) -> Seq<char> {
    let py = 550 + 36 * i;
    "<text x=\"80\" y=\""@ + dec_int(py)
        + "\" fill=\"#8899aa\" font-size=\"12\" font-family=\"__FONT__\">"@
        + xml_escape_spec(p.category) + "</text>"@ + "<text x=\"80\" y=\""@ + dec_int(py + 16)
        + "\" fill=\""@ + rarity_hex_spec(p.rarity)
        + "\" font-size=\"15\" font-weight=\"bold\" font-family=\"__FONT__\">"@
        + xml_escape_spec(p.part_name) + "</text>"@ + "<text x=\"302\" y=\""@ + dec_int(py + 16)
        + "\" fill=\"#4fc3f7\" font-size=\"17\" font-weight=\"bold\" text-anchor=\"end\" font-family=\"__FONT__\">"@
        + dec_int(p.total as int) + "</text>"@
}

/// The rows of the parts card, in order.
pub open spec fn part_rows_spec(ps: Seq<PartSnapView>) -> Seq<char>
    decreases ps.len(),
{
    if ps.len() == 0 {
        Seq::empty()
    } else {
        part_rows_spec(ps.drop_last()) + part_row_spec(ps.len() - 1, ps.last())
    }
}

/// The first `n` entries of `s`, or all of them when there are fewer.
pub open spec fn first_n<A>(s: Seq<A>, n: int) -> Seq<A> {
    if s.len() < n {
        s
    } else {
        s.take(n)
    }
}

/// The parts card: its first seven parts and the parts score.
pub open spec fn parts_card_spec(ps: Seq<PartSnapView>, parts_total: int) -> Seq<char> {
    card_rect_spec(60, 482, 258, 370) + card_title_spec(84, 520, "PARTS"@) + part_rows_spec(
        first_n(ps, 7),
    ) + "<line x1=\"72\" y1=\"802\" x2=\"306\" y2=\"802\" stroke=\"#2a3a4a\" stroke-width=\"1\"/>"@
        + "<text x=\"80\" y=\"830\" fill=\"#8899aa\" font-size=\"13\" font-weight=\"bold\" font-family=\"__FONT__\">TOTAL SCORE</text>"@
        + "<text x=\"302\" y=\"830\" fill=\"#4fc3f7\" font-size=\"20\" font-weight=\"bold\" text-anchor=\"end\" font-family=\"__FONT__\">"@
        + dec_int(parts_total) + "</text>"@
}

fn part_row(i: i32, p: &PartSnapshot) -> (r: String)
    requires
        0 <= i < 7,
    ensures
        r@ == part_row_spec(i as int, p@),
{
    let py: i32 = 550 + i * 36;
    let mut s = string_of("<text x=\"80\" y=\"");
    push_i64(&mut s, py as i64);
    push_str(&mut s, "\" fill=\"#8899aa\" font-size=\"12\" font-family=\"__FONT__\">");
    let esc_cat = xml_escape(p.category.as_str());
    push_str(&mut s, esc_cat.as_str());
    push_str(&mut s, "</text>");
    push_str(&mut s, "<text x=\"80\" y=\"");
    push_i64(&mut s, (py + 16) as i64);
    push_str(&mut s, "\" fill=\"");
    push_str(&mut s, rarity_hex(p.rarity.as_str()));
    push_str(&mut s, "\" font-size=\"15\" font-weight=\"bold\" font-family=\"__FONT__\">");
    let esc_name = xml_escape(p.part_name.as_str());
    push_str(&mut s, esc_name.as_str());
    push_str(&mut s, "</text>");
    push_str(&mut s, "<text x=\"302\" y=\"");
    push_i64(&mut s, (py + 16) as i64);
    push_str(
        &mut s,
        "\" fill=\"#4fc3f7\" font-size=\"17\" font-weight=\"bold\" text-anchor=\"end\" font-family=\"__FONT__\">",
    );
    push_i64(&mut s, p.total as i64);
    push_str(&mut s, "</text>");
    s
}

fn parts_card(parts: &Vec<PartSnapshot>, parts_total: i64) -> (r: String)
    ensures
        r@ == parts_card_spec(part_views(parts@), parts_total as int),
{
    let ghost ps = part_views(parts@);
    let rect = card_rect(60, 482, 258, 370);
    let mut s = string_of(rect.as_str());
    let title = card_title(84, 520, "PARTS");
    push_str(&mut s, title.as_str());
    let ghost head = s@;
    let n: usize = if parts.len() < 7 {
        parts.len()
    } else {
        7
    };
    let mut i: usize = 0;
    while i < n
        invariant
            n <= parts@.len(),
            n <= 7,
            ps == part_views(parts@),
            0 <= i <= n,
            s@ == head + part_rows_spec(ps.take(i as int)),
        decreases n - i,
    {
        let row = part_row(i as i32, &parts[i]);
        push_str(&mut s, row.as_str());
        assert(ps.take(i as int + 1).drop_last() =~= ps.take(i as int));
        i = i + 1;
    }
    assert(ps.take(n as int) =~= first_n(ps, 7));
    push_str(&mut s, "<line x1=\"72\" y1=\"802\" x2=\"306\" y2=\"802\" stroke=\"#2a3a4a\" stroke-width=\"1\"/>");
    push_str(
        &mut s,
        "<text x=\"80\" y=\"830\" fill=\"#8899aa\" font-size=\"13\" font-weight=\"bold\" font-family=\"__FONT__\">TOTAL SCORE</text>",
    );
    push_str(
        &mut s,
        "<text x=\"302\" y=\"830\" fill=\"#4fc3f7\" font-size=\"20\" font-weight=\"bold\" text-anchor=\"end\" font-family=\"__FONT__\">",
    );
    push_i64(&mut s, parts_total);
    push_str(&mut s, "</text>");
    s
}

/// The row of the `i`-th driver on the drivers card.
pub open spec fn driver_row_spec(i: int, d: DriverSnapView) -> Seq<char> {
    let dy = 558 + 76 * i;
    "<text x=\"350\" y=\""@ + dec_int(dy) + "\" fill=\""@ + rarity_hex_spec(d.rarity)
        + "\" font-size=\"17\" font-weight=\"bold\" font-family=\"__FONT__\">"@
        + xml_escape_spec(d.driver_name) + "</text>"@ + "<text x=\"350\" y=\""@ + dec_int(dy + 18)
        + "\" fill=\"#8899aa\" font-size=\"13\" font-family=\"__FONT__\">("@ + xml_escape_spec(d.rarity)
        + ")</text>"@ + "<text x=\"534\" y=\""@ + dec_int(dy + 10)
        + "\" fill=\"#4fc3f7\" font-size=\"20\" font-weight=\"bold\" text-anchor=\"end\" font-family=\"__FONT__\">"@
        + dec_int(d.total as int) + "</text>"@
}

/// The rows of the drivers card, in order.
pub open spec fn driver_rows_spec(ds: Seq<DriverSnapView>) -> Seq<char>
    decreases ds.len(),
{
    if ds.len() == 0 {
        Seq::empty()
    } else {
        driver_rows_spec(ds.drop_last()) + driver_row_spec(ds.len() - 1, ds.last())
    }
}

/// The drivers card: its first two drivers and the drivers score, or a note
/// when no driver was selected.
pub open spec fn drivers_card_spec(ds: Seq<DriverSnapView>, drivers_total: int) -> Seq<char> {
    card_rect_spec(330, 482, 220, 370) + card_title_spec(354, 520, "DRIVERS"@) + if ds.len() == 0 {
        "<text x=\"350\" y=\"562\" fill=\"#8899aa\" font-size=\"15\" font-family=\"__FONT__\">No drivers selected</text>"@
    } else {
        driver_rows_spec(first_n(ds, 2))
            + "<line x1=\"342\" y1=\"802\" x2=\"538\" y2=\"802\" stroke=\"#2a3a4a\" stroke-width=\"1\"/>"@
            + "<text x=\"350\" y=\"830\" fill=\"#8899aa\" font-size=\"13\" font-weight=\"bold\" font-family=\"__FONT__\">DRIVERS SCORE</text>"@
            + "<text x=\"534\" y=\"830\" fill=\"#ffd700\" font-size=\"20\" font-weight=\"bold\" text-anchor=\"end\" font-family=\"__FONT__\">"@
            + dec_int(drivers_total) + "</text>"@
    }
}

fn driver_row(i: i32, d: &DriverSnapshot) -> (r: String)
    requires
        0 <= i < 2,
    ensures
        r@ == driver_row_spec(i as int, d@),
{
    let dy: i32 = 558 + i * 76;
    let mut s = string_of("<text x=\"350\" y=\"");
    push_i64(&mut s, dy as i64);
    push_str(&mut s, "\" fill=\"");
    push_str(&mut s, rarity_hex(d.rarity.as_str()));
    push_str(&mut s, "\" font-size=\"17\" font-weight=\"bold\" font-family=\"__FONT__\">");
    let esc_name = xml_escape(d.driver_name.as_str());
    push_str(&mut s, esc_name.as_str());
    push_str(&mut s, "</text>");
    push_str(&mut s, "<text x=\"350\" y=\"");
    push_i64(&mut s, (dy + 18) as i64);
    push_str(&mut s, "\" fill=\"#8899aa\" font-size=\"13\" font-family=\"__FONT__\">(");
    let esc_rarity = xml_escape(d.rarity.as_str());
    push_str(&mut s, esc_rarity.as_str());
    push_str(&mut s, ")</text>");
    push_str(&mut s, "<text x=\"534\" y=\"");
    push_i64(&mut s, (dy + 10) as i64);
    push_str(
        &mut s,
        "\" fill=\"#4fc3f7\" font-size=\"20\" font-weight=\"bold\" text-anchor=\"end\" font-family=\"__FONT__\">",
    );
    push_i64(&mut s, d.total as i64);
    push_str(&mut s, "</text>");
    s
}

fn drivers_card(drivers: &[DriverSnapshot], drivers_total: i64) -> (r: String)
    ensures
        r@ == drivers_card_spec(crate::share::driver_views(drivers@), drivers_total as int),
{
    let ghost ds = crate::share::driver_views(drivers@);
    let rect = card_rect(330, 482, 220, 370);
    let mut s = string_of(rect.as_str());
    let title = card_title(354, 520, "DRIVERS");
    push_str(&mut s, title.as_str());
    let ghost head = s@;
    if drivers.len() == 0 {
        push_str(
            &mut s,
            "<text x=\"350\" y=\"562\" fill=\"#8899aa\" font-size=\"15\" font-family=\"__FONT__\">No drivers selected</text>",
        );
    } else {
        let n: usize = if drivers.len() < 2 {
            drivers.len()
        } else {
            2
        };
        let mut i: usize = 0;
        while i < n
            invariant
                n <= drivers@.len(),
                n <= 2,
                ds == crate::share::driver_views(drivers@),
                0 <= i <= n,
                s@ == head + driver_rows_spec(ds.take(i as int)),
            decreases n - i,
        {
            let row = driver_row(i as i32, &drivers[i]);
            push_str(&mut s, row.as_str());
            assert(ds.take(i as int + 1).drop_last() =~= ds.take(i as int));
            i = i + 1;
        }
        assert(ds.take(n as int) =~= first_n(ds, 2));
        push_str(&mut s, "<line x1=\"342\" y1=\"802\" x2=\"538\" y2=\"802\" stroke=\"#2a3a4a\" stroke-width=\"1\"/>");
        push_str(
            &mut s,
            "<text x=\"350\" y=\"830\" fill=\"#8899aa\" font-size=\"13\" font-weight=\"bold\" font-family=\"__FONT__\">DRIVERS SCORE</text>",
        );
        push_str(
            &mut s,
            "<text x=\"534\" y=\"830\" fill=\"#ffd700\" font-size=\"20\" font-weight=\"bold\" text-anchor=\"end\" font-family=\"__FONT__\">",
        );
        push_i64(&mut s, drivers_total);
        push_str(&mut s, "</text>");
        let ghost tail = driver_rows_spec(first_n(ds, 2))
            + "<line x1=\"342\" y1=\"802\" x2=\"538\" y2=\"802\" stroke=\"#2a3a4a\" stroke-width=\"1\"/>"@
            + "<text x=\"350\" y=\"830\" fill=\"#8899aa\" font-size=\"13\" font-weight=\"bold\" font-family=\"__FONT__\">DRIVERS SCORE</text>"@
            + "<text x=\"534\" y=\"830\" fill=\"#ffd700\" font-size=\"20\" font-weight=\"bold\" text-anchor=\"end\" font-family=\"__FONT__\">"@
            + dec_int(drivers_total as int) + "</text>"@;
        assert(s@ =~= head + tail);
    }
    s
}

/// The setup summary card: name (cut at 14 characters), season, creation
/// date and views.
pub open spec fn summary_card_spec(
    name: Seq<char>,
    season: Seq<char>,
    created_at: Seq<char>,
    view_count: int,
) -> Seq<char> {
    card_rect_spec(562, 482, 280, 370) + card_title_spec(586, 520, "SETUP SUMMARY"@)
        + summary_row_spec(582, 826, 562, "Setup Name"@, xml_escape_spec(truncate_name(name, 14)))
        + summary_row_spec(582, 826, 610, "Season"@, xml_escape_spec(season))
        + summary_row_spec(582, 826, 658, "Created"@, xml_escape_spec(created_at))
        + summary_row_spec(582, 826, 706, "Views"@, dec_int(view_count))
}

fn summary_card(name: &str, season: &str, created_at: &str, view_count: i32) -> (r: String)
    ensures
        r@ == summary_card_spec(name@, season@, created_at@, view_count as int),
{
    let rect = card_rect(562, 482, 280, 370);
    let mut s = string_of(rect.as_str());
    let title = card_title(586, 520, "SETUP SUMMARY");
    push_str(&mut s, title.as_str());
    let name_short = truncate_chars(name, 14);
    let esc_name = xml_escape(name_short.as_str());
    let row1 = summary_row(582, 826, 562, "Setup Name", esc_name.as_str());
    push_str(&mut s, row1.as_str());
    let esc_season = xml_escape(season);
    let row2 = summary_row(582, 826, 610, "Season", esc_season.as_str());
    push_str(&mut s, row2.as_str());
    let esc_created = xml_escape(created_at);
    let row3 = summary_row(582, 826, 658, "Created", esc_created.as_str());
    push_str(&mut s, row3.as_str());
    let views = crate::text::i64_to_string(view_count as i64);
    let row4 = summary_row(582, 826, 706, "Views", views.as_str());
    push_str(&mut s, row4.as_str());
    s
}

/// The whole overlay; the parts are shown in the canonical order of their
/// categories.
pub open spec fn overlay_spec(
    name: Seq<char>,
    season: Seq<char>,
    priority_label: Seq<char>,
    parts: Seq<PartSnapView>,
    drivers: Seq<DriverSnapView>,
    parts_total: int,
    drivers_total: int,
    combined: int,
    view_count: int,
    created_at: Seq<char>,
) -> Seq<char> {
    "<svg xmlns=\"http://www.w3.org/2000/svg\" width=\"1734\" height=\"907\">"@
        + top_section_spec(name, season, priority_label)
        + stats_bar_spec(view_count, combined, parts_total)
        + parts_card_spec(in_category_order(parts), parts_total)
        + drivers_card_spec(drivers, drivers_total)
        + summary_card_spec(name, season, created_at, view_count) + "</svg>"@
}

/// Builds the SVG overlay of a shared setup's preview card.
pub fn build_overlay(
    name: &str,
    season: &str,
    priority_label: &str,
    parts: &[PartSnapshot],
    drivers: &[DriverSnapshot],
    parts_total: i64,
    drivers_total: i64,
    combined: i64,
    view_count: i32,
    created_at: &str,
) -> (r: String)
    ensures
        r@ == overlay_spec(
            name@,
            season@,
            priority_label@,
            part_views(parts@),
            crate::share::driver_views(drivers@),
            parts_total as int,
            drivers_total as int,
            combined as int,
            view_count as int,
            created_at@,
        ),
{
    let sorted_parts = sort_by_category(parts);
    let mut s = string_of("<svg xmlns=\"http://www.w3.org/2000/svg\" width=\"1734\" height=\"907\">");
    let top = top_section(name, season, priority_label);
    push_str(&mut s, top.as_str());
    let bar = stats_bar(view_count, combined, parts_total);
    push_str(&mut s, bar.as_str());
    let card1 = parts_card(&sorted_parts, parts_total);
    push_str(&mut s, card1.as_str());
    let card2 = drivers_card(drivers, drivers_total);
    push_str(&mut s, card2.as_str());
    let card3 = summary_card(name, season, created_at, view_count);
    push_str(&mut s, card3.as_str());
    push_str(&mut s, "</svg>");
    s
}


// ── Rendering ─────────────────────────────────────────────────────────────────

/// The priority label of the card: the selected priorities joined by ` + `.
pub fn priority_label(priorities: &StatPriorities) -> (r: String)
    ensures
        r@ == join_spec(priorities.label_views(), " + "@),
{
    let labels = priorities.labels();
    join(&labels, " + ")
}

/// The overlay of a shared setup with the font family `family` in place of
/// `__FONT__`; the total score is the parts score plus the drivers score.
pub fn og_svg(
    name: &str,
    season: &str,
    priorities: &StatPriorities,
    parts: &[PartSnapshot],
    drivers: &[DriverSnapshot],
    parts_total: i64,
    drivers_total: i64,
    view_count: i32,
    created_at: &str,
    family: &str,
) -> (r: String)
    requires
        i64::MIN <= parts_total + drivers_total <= i64::MAX,
    ensures
        r@ == replace_spec(
            overlay_spec(
                name@,
                season@,
                join_spec(priorities.label_views(), " + "@),
                part_views(parts@),
                crate::share::driver_views(drivers@),
                parts_total as int,
                drivers_total as int,
                parts_total + drivers_total,
                view_count as int,
                created_at@,
            ),
            "__FONT__"@,
            family@,
        ),
{
    let combined = parts_total + drivers_total;
    let label = priority_label(priorities);
    let svg_raw = build_overlay(
        name,
        season,
        label.as_str(),
        parts,
        drivers,
        parts_total,
        drivers_total,
        combined,
        view_count,
        created_at,
    );
    proof {
        reveal_strlit("__FONT__");
    }
    replace_all(svg_raw.as_str(), "__FONT__", family)
}

/// The eight bytes that open every PNG stream.
pub open spec fn png_signature() -> Seq<u8> {
    seq![137u8, 80u8, 78u8, 71u8, 13u8, 10u8, 26u8, 10u8]
}

/// Whether `bytes` opens with the PNG signature.
pub open spec fn has_png_signature(bytes: Seq<u8>) -> bool {
    bytes.len() >= 8 && bytes.subrange(0, 8) == png_signature()
}

/// The first family name of the first face in a font file, as the font
/// database reads it; `None` when the file yields no face.
pub uninterp spec fn font_family_of(font: Seq<u8>) -> Option<Seq<char>>;

/// The PNG that the renderer makes of the SVG `svg` with the faces of `font`,
/// drawn over the PNG `template`, links to image files ignored; `None` when
/// the SVG does not parse, the template does not decode or the encoding
/// fails.
pub uninterp spec fn og_png(svg: Seq<char>, font: Seq<u8>, template: Seq<u8>) -> Option<Seq<u8>>;

/// The family of a font file: the first family name of its first face, as
/// `fontdb::Database::load_font_data` and `Database::faces` give it. What
/// the name is on given bytes is named, not stated.
#[verifier::external_body]
fn first_font_family(font_data: &[u8]) -> (r: Option<String>)
    ensures
        match font_family_of(font_data@) {
            Some(f) => r matches Some(s) && s@ == f,
            None => r is None,
        },
{
    let mut db = Database::new();
    db.load_font_data(font_data.to_vec());
    let family = db.faces().next().and_then(|f| f.families.first()).map(|(n, _)| n.clone());
    family
}

/// Renders `svg` over the PNG `template` and encodes the result: a font
/// database with the faces of `font_data`, `usvg::Tree::from_data_nested`
/// (which ignores links to image files, so nothing is read from disk),
/// `tiny_skia::Pixmap::decode_png`, `resvg::render` untransformed and
/// `Pixmap::encode_png`; `None` when any step fails. Stated: the decoder
/// reads the PNG signature first and fails without it, and the encoder
/// writes the signature first into an empty vector. What the pixels are is
/// named, not stated.
#[verifier::external_body]
fn render_png(svg: &str, font_data: &[u8], template: &[u8]) -> (r: Option<Vec<u8>>)
    ensures
        match og_png(svg@, font_data@, template@) {
            Some(b) => r matches Some(v) && v@ == b,
            None => r is None,
        },
        r is Some ==> has_png_signature(template@),
        r matches Some(v) ==> has_png_signature(v@),
{
    let mut db = Database::new();
    db.load_font_data(font_data.to_vec());
    let mut opt = resvg::usvg::Options::default();
    opt.fontdb = std::sync::Arc::new(db);
    let tree = Tree::from_data_nested(svg.as_bytes(), &opt).ok()?;
    let mut pixmap = Pixmap::decode_png(template).ok()?;
    resvg::render(&tree, resvg::tiny_skia::Transform::identity(), &mut pixmap.as_mut());
    pixmap.encode_png().ok()
}

/// The font family the card is drawn in: the family of the font file, or
/// `sans-serif` when it has none.
pub open spec fn card_family(font: Seq<u8>) -> Seq<char> {
    match font_family_of(font) {
        Some(f) => f,
        None => "sans-serif"@,
    }
}

/// The font family the card is drawn in: the first family of the first face
/// of `font_data`, or `sans-serif` when it has none.
pub fn og_font_family(font_data: &[u8]) -> (r: String)
    ensures
        r@ == card_family(font_data@),
{
    match first_font_family(font_data) {
        Some(f) => f,
        None => string_of("sans-serif"),
    }
}

/// The overlay text of a card, before the font family is filled in.
pub open spec fn card_overlay(
    name: Seq<char>,
    season: Seq<char>,
    priorities: StatPriorities,
    parts: Seq<PartSnapshot>,
    drivers: Seq<DriverSnapshot>,
    parts_total: int,
    drivers_total: int,
    view_count: int,
    created_at: Seq<char>,
) -> Seq<char> {
    overlay_spec(
        name,
        season,
        join_spec(priorities.label_views(), " + "@),
        part_views(parts),
        crate::share::driver_views(drivers),
        parts_total,
        drivers_total,
        parts_total + drivers_total,
        view_count,
        created_at,
    )
}

/// Renders the preview card: the overlay of [`og_svg`], in the family of the
/// first face of `font_data` (`sans-serif` when it has none), composited over
/// the PNG `template_png`. Returns the PNG bytes, or an empty vector when the
/// SVG, the template or the encoding fails: so the result is either empty or
/// opens with the PNG signature, and it is empty whenever the template does
/// not.
pub fn render_og_image(
    name: &str,
    season: &str,
    priorities: &StatPriorities,
    parts: &[PartSnapshot],
    drivers: &[DriverSnapshot],
    parts_total: i64,
    drivers_total: i64,
    view_count: i32,
    created_at: &str,
    font_data: &[u8],
    template_png: &[u8],
) -> (r: Vec<u8>)
    requires
        i64::MIN <= parts_total + drivers_total <= i64::MAX,
    ensures
        ({
            let family = card_family(font_data@);
            let svg = replace_spec(
                card_overlay(
                    name@,
                    season@,
                    *priorities,
                    parts@,
                    drivers@,
                    parts_total as int,
                    drivers_total as int,
                    view_count as int,
                    created_at@,
                ),
                "__FONT__"@,
                family,
            );
            r@ == match og_png(svg, font_data@, template_png@) {
                Some(b) => b,
                None => Seq::empty(),
            }
        }),
        r@.len() == 0 || has_png_signature(r@),
        !has_png_signature(template_png@) ==> r@.len() == 0,
{
    let family = og_font_family(font_data);
    let svg = og_svg(
        name,
        season,
        priorities,
        parts,
        drivers,
        parts_total,
        drivers_total,
        view_count,
        created_at,
        family.as_str(),
    );
    match render_png(svg.as_str(), font_data, template_png) {
        Some(bytes) => bytes,
        None => Vec::new(),
    }
}

} // verus!
