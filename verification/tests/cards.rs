use spellcards::db::{Query, SimpleSpellDB, SpellDB};
use spellcards::font::{Font, FontKind};
use spellcards::render::{
    build_pages, build_spell_scene, pack_cards, FontConfig, OwnedFontConfig, PageCell,
    GRID_HEIGHT,
};
use spellcards::rich_text::{LayoutError, Scene};
use spellcards::spell::{Actions, Property, Spell, SpellType, Traditions};

fn test_fonts() -> OwnedFontConfig {
    // units-per-em 1000; every listed character advances 500 font units
    let table = || {
        let mut advances: Vec<(char, i64)> = Vec::new();
        for c in "abcdefghijklmnopqrstuvwxyzABCDEFGHIJKLMNOPQRSTUVWXYZ0123456789 .".chars() {
            advances.push((c, 500));
        }
        advances
    };
    OwnedFontConfig::new(
        Font::new(FontKind::Text, 1000, table()),
        Font::new(FontKind::Bold, 1000, table()),
        Font::new(FontKind::Italic, 1000, table()),
        Font::new(FontKind::ActionCount, 1000, table()),
    )
}

fn spell_with_description(description: &str) -> Spell {
    Spell {
        name: "Zap".to_string(),
        level: 3,
        spell_type: SpellType::Spell,
        traits: vec!["Fire".to_string()],
        actions: Actions::Number(1),
        properties: vec![Property { name: "Range".to_string(), value: "30 feet".to_string() }],
        description: description.to_string(),
        heightened: None,
        extras: vec![],
        traditions: Traditions { is_arcane: true, is_divine: false, is_primal: true, is_occult: false },
    }
}

fn paragraphs(n: usize) -> String {
    let mut s = String::new();
    for i in 0..n {
        if i > 0 {
            s.push_str("\n\n");
        }
        s.push('a');
    }
    s
}

#[test]
fn short_card_is_normal_height() {
    let fonts = test_fonts();
    let config = fonts.config();
    let (scene, is_double) = build_spell_scene(&config, &spell_with_description("a")).unwrap();
    assert!(!is_double);
    assert!(!scene.parts.is_empty());
    // name, glyph, level, chip, property label and value, description
    assert_eq!(scene.parts[0].text, "Zap");
}

#[test]
fn overflowing_card_doubles_exactly_once() {
    let fonts = test_fonts();
    let config = fonts.config();
    let (_, is_double) = build_spell_scene(&config, &spell_with_description(&paragraphs(30)))
        .unwrap();
    assert!(is_double);
}

#[test]
fn card_overflowing_doubled_box_fails_without_scene() {
    let fonts = test_fonts();
    let config = fonts.config();
    let result = build_spell_scene(&config, &spell_with_description(&paragraphs(80)));
    match result {
        Err(LayoutError::CardOverflow { name }) => assert_eq!(name, "Zap"),
        _ => panic!("expected a card overflow"),
    }
}

#[test]
fn unfit_word_aborts_only_that_card() {
    let fonts = test_fonts();
    let config = fonts.config();
    // one word wider than the card box: 400 characters at 500/1000 * 7700
    let wide = "a".repeat(400);
    let result = build_spell_scene(&config, &spell_with_description(&wide));
    assert!(matches!(result, Err(LayoutError::UnfitToken { .. })));
    // the rest of a batch still renders
    let spells = vec![spell_with_description(&wide), spell_with_description("a")];
    let (columns, errors) = build_pages(&config, &spells);
    assert_eq!(errors.len(), 1);
    assert_eq!(columns.len(), 1);
}

fn empty_scene() -> Scene {
    Scene { polygons: vec![], parts: vec![] }
}

fn is_filled(c: &PageCell) -> bool {
    matches!(c, PageCell::Filled(_))
}

#[test]
fn packer_conserves_slots_and_keeps_doubles_in_one_column() {
    // two doubles and two normals on 3-slot columns: each column holds one
    // double (two adjacent slots) and one normal; 2*2 + 2*1 = 6 slots over
    // two full columns.
    let doubles = vec![empty_scene(), empty_scene()];
    let normals = vec![empty_scene(), empty_scene()];
    let columns = pack_cards(doubles, normals);
    assert_eq!(columns.len(), 2);
    for column in &columns {
        assert_eq!(column.len(), GRID_HEIGHT);
        assert!(is_filled(&column[0]));
        assert!(matches!(column[1], PageCell::Empty));
        assert!(is_filled(&column[2]));
    }
}

#[test]
fn packer_prefers_doubles_while_headroom_remains() {
    // one double and three normals: the double goes first, the column is
    // finished by a normal, the rest spill into a second column.
    let doubles = vec![empty_scene()];
    let normals = vec![empty_scene(), empty_scene(), empty_scene()];
    let columns = pack_cards(doubles, normals);
    assert_eq!(columns.len(), 2);
    assert!(is_filled(&columns[0][0]));
    assert!(matches!(columns[0][1], PageCell::Empty));
    assert!(is_filled(&columns[0][2]));
    assert!(is_filled(&columns[1][0]));
    assert!(is_filled(&columns[1][1]));
    assert!(matches!(columns[1][2], PageCell::Empty));
}

#[test]
fn packer_closes_column_when_only_doubles_remain_without_headroom() {
    // two doubles on 3-slot columns: the second double cannot take the last
    // slot of the first column, so that column closes early.
    let doubles = vec![empty_scene(), empty_scene()];
    let columns = pack_cards(doubles, vec![]);
    assert_eq!(columns.len(), 2);
    assert!(is_filled(&columns[0][0]));
    assert!(matches!(columns[0][1], PageCell::Empty));
    assert!(matches!(columns[0][2], PageCell::Empty));
    assert!(is_filled(&columns[1][0]));
}

#[test]
fn packer_pads_the_last_partial_column() {
    let columns = pack_cards(vec![], vec![empty_scene()]);
    assert_eq!(columns.len(), 1);
    assert!(is_filled(&columns[0][0]));
    assert!(matches!(columns[0][1], PageCell::Empty));
    assert!(matches!(columns[0][2], PageCell::Empty));
}

#[test]
fn heightened_section_renders_after_second_separator() {
    let fonts = test_fonts();
    let config = fonts.config();
    let mut spell = spell_with_description("body text");
    spell.heightened = Some("boosted".to_string());
    let (scene, _) = build_spell_scene(&config, &spell).unwrap();
    let texts: Vec<&str> = scene.parts.iter().map(|c| c.text.as_str()).collect();
    assert!(texts.contains(&"boosted"));
    // chip border, two separators and the card frame
    assert_eq!(scene.polygons.len(), 4);
}

#[test]
fn spell_type_parses_known_categories() {
    assert!(matches!(SpellType::parse("spell"), Some(SpellType::Spell)));
    assert!(matches!(SpellType::parse("focus"), Some(SpellType::Focus)));
    assert!(matches!(SpellType::parse("cantrip"), Some(SpellType::Cantrip)));
    assert!(SpellType::parse("ritual").is_none());
}

#[test]
fn actions_parse_and_glyphs() {
    assert!(matches!(Actions::parse("Reaction".to_string()), Actions::Reaction));
    assert!(matches!(Actions::parse("Singe Action".to_string()), Actions::Number(1)));
    assert!(matches!(Actions::parse("Two Actions".to_string()), Actions::Number(2)));
    assert!(matches!(Actions::parse("Three Actions".to_string()), Actions::Number(3)));
    assert!(matches!(Actions::parse("1 minute".to_string()), Actions::Other(_)));
    assert_eq!(Actions::Reaction.as_str(), Some("5"));
    assert_eq!(Actions::Number(2).as_str(), Some("2"));
    assert_eq!(Actions::Number(9).as_str(), None);
    assert_eq!(Actions::Other("x".to_string()).as_str(), None);
    assert_eq!(Actions::number_as_str(3), Some("3"));
    assert_eq!(Actions::number_as_str(4), None);
}

#[test]
fn spell_markdown_splits_sections() {
    let (description, heightened, extras) =
        Spell::parse_markdown("head--- body ---boost---x---y").unwrap();
    assert_eq!(description, "body");
    assert_eq!(heightened.as_deref(), Some("boost"));
    assert_eq!(extras, vec!["x", "y"]);

    let (description, heightened, extras) = Spell::parse_markdown("head--- body ").unwrap();
    assert_eq!(description, " body ");
    assert!(heightened.is_none());
    assert!(extras.is_empty());

    assert!(Spell::parse_markdown("no separator").is_none());
}

#[test]
fn search_filters_by_name_rank_and_tradition() {
    let mut zap = spell_with_description("a");
    zap.name = "Fireball".to_string();
    let mut heal = spell_with_description("a");
    heal.name = "Heal".to_string();
    heal.level = 1;
    heal.traditions = Traditions { is_arcane: false, is_divine: true, is_primal: true, is_occult: false };
    let db = SimpleSpellDB::new(vec![zap, heal]);

    // case-insensitive name match through the lowercase tables
    let query = Query { name_query: "FIRE".to_string(), ..Default::default() };
    let found = db.search(&query);
    assert_eq!(found.len(), 1);
    assert_eq!(found[0].name, "Fireball");

    // rank filter
    let query = Query { spell_rank: Some(1), ..Default::default() };
    let found = db.search(&query);
    assert_eq!(found.len(), 1);
    assert_eq!(found[0].name, "Heal");

    // tradition flags exclude spells lacking the tradition
    let query = Query { is_divine: true, ..Default::default() };
    let found = db.search(&query);
    assert_eq!(found.len(), 1);
    assert_eq!(found[0].name, "Heal");

    // an empty query matches everything, in store order
    let found = db.search(&Query::default());
    assert_eq!(found.len(), 2);
    assert_eq!(found[0].name, "Fireball");
}

#[test]
fn font_kind_paths_name_the_font_files() {
    assert_eq!(FontKind::Text.path(), "static/Helvetica.ttf");
    assert_eq!(FontKind::Italic.path(), "static/Helvetica.ttf");
    assert_eq!(FontKind::Bold.path(), "static/Helvetica-Bold.ttf");
    assert_eq!(FontKind::ActionCount.path(), "static/Pathfinder2eActions.ttf");
}

#[test]
fn config_exposes_the_bundled_fonts() {
    let fonts = test_fonts();
    let config: FontConfig<'_> = fonts.config();
    assert_eq!(config.md_config.text_font.char_width_at(1000, 'a'), 500);
    assert_eq!(config.action_count_font.char_width_at(2000, '1'), 1000);
}
