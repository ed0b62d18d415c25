use memeinator::config::{
    parse_coordinates, parse_meme_directive, parse_u32, split_at_char, Config, MemeError,
    MemeSource,
};
use memeinator::glyphs::{pack_glyph_key, GlyphCache};
use memeinator::raster::Mask;

#[test]
fn config_defaults_fill_absent_fields() {
    let c = Config::new(None, None, None);
    assert_eq!(c.watermark, "Made with meme-cli");
    assert_eq!(c.watermark_size_fraction, 120);
    assert_eq!(c.sources.len(), 1);
    match &c.sources[0] {
        MemeSource::GitUrl { url, alias } => {
            assert_eq!(url, "https://github.com/TheRawMeatball/memeinator-memesrc.git");
            assert_eq!(alias, "default");
        },
        MemeSource::LocalPath(_) => panic!("default source is a git url"),
    }
}

#[test]
fn config_keeps_given_fields() {
    let c = Config::new(
        Some(vec![MemeSource::LocalPath("/tmp/memes".to_string())]),
        Some("mine".to_string()),
        Some(80),
    );
    assert_eq!(c.watermark(), "mine");
    assert_eq!(c.watermark_size_fraction(), 80);
    assert_eq!(c.fetch_source_list().len(), 1);
    match &c.fetch_source_list()[0] {
        MemeSource::LocalPath(p) => assert_eq!(p, "/tmp/memes"),
        MemeSource::GitUrl { .. } => panic!("given source kept"),
    }
}

#[test]
fn split_keeps_empty_pieces() {
    let parts = split_at_char("a--b-", '-');
    let view: Vec<&str> = parts.iter().map(|s| s.as_str()).collect();
    assert_eq!(view, ["a", "", "b", ""]);
    assert_eq!(split_at_char("", '-').len(), 1);
}

#[test]
fn decimal_parsing_follows_unsigned_literal_rules() {
    assert_eq!(parse_u32("0"), Some(0));
    assert_eq!(parse_u32("42"), Some(42));
    assert_eq!(parse_u32("+42"), Some(42));
    assert_eq!(parse_u32("4294967295"), Some(u32::MAX));
    assert_eq!(parse_u32("4294967296"), None);
    assert_eq!(parse_u32("99999999999"), None);
    assert_eq!(parse_u32(""), None);
    assert_eq!(parse_u32("+"), None);
    assert_eq!(parse_u32("-1"), None);
    assert_eq!(parse_u32("1x"), None);
    assert_eq!(parse_u32(" 1"), None);
}

#[test]
fn coordinates_parse_into_slot_corners() {
    let mt = parse_coordinates("10-20-110-60").expect("valid literal");
    assert_eq!(mt.min, (10, 20));
    assert_eq!(mt.max, (110, 60));
}

#[test]
fn coordinate_fields_beyond_four_are_ignored() {
    let mt = parse_coordinates("1-2-3-4-99").expect("extras ignored");
    assert_eq!(mt.min, (1, 2));
    assert_eq!(mt.max, (3, 4));
}

#[test]
fn bad_coordinates_are_config_errors() {
    for bad in ["", "1-2-3", "a-2-3-4", "1-2-3-4294967296", "1--3-4"] {
        match parse_coordinates(bad) {
            Ok(_) => panic!("{:?} accepted", bad),
            Err(e) => {
                assert!(matches!(e, MemeError::ConfigError(_)));
                assert_eq!(e.message(), "Incorrect coordinate literal");
            },
        }
    }
}

#[test]
fn meme_directive_splits_template_and_inputs() {
    let (tpl, inputs) = parse_meme_directive("/meme drake$$no$$yes").expect("directive");
    assert_eq!(tpl, "drake");
    assert_eq!(inputs, ["no", "yes"]);
}

#[test]
fn meme_directive_without_inputs() {
    let (tpl, inputs) = parse_meme_directive("/meme stonks").expect("directive");
    assert_eq!(tpl, "stonks");
    assert!(inputs.is_empty());
}

#[test]
fn plain_text_is_not_a_directive() {
    assert!(parse_meme_directive("hello world").is_none());
    assert!(parse_meme_directive("/memex").is_none());
    assert!(parse_meme_directive("/mem").is_none());
    assert!(parse_meme_directive("").is_none());
}

#[test]
fn directive_separator_pairs_do_not_overlap() {
    let (tpl, inputs) = parse_meme_directive("/meme a$$$b").expect("directive");
    assert_eq!(tpl, "a");
    assert_eq!(inputs, ["$b"]);
}

#[test]
fn error_variants_carry_their_context() {
    let e = MemeError::TemplateNotFound("drake".to_string());
    assert_eq!(e.message(), "drake");
    let e = MemeError::UnsupportedOperation("animated to clipboard".to_string());
    assert_eq!(e.message(), "animated to clipboard");
    let e = MemeError::AssetNotFound("image.png".to_string());
    assert_eq!(e.message(), "image.png");
}

#[test]
fn glyph_cache_returns_what_was_stored() {
    let mut cache = GlyphCache::new();
    let key = pack_glyph_key(1, 7, 80);
    assert!(cache.lookup(key).is_none());
    cache.store(key, Mask { width: 2, height: 1, data: vec![3, 4] });
    let hit = cache.lookup(key).expect("stored entry found");
    assert_eq!((hit.width, hit.height), (2, 1));
    assert_eq!(hit.data, vec![3, 4]);
    assert!(cache.lookup(pack_glyph_key(1, 7, 81)).is_none());
    assert!(cache.lookup(pack_glyph_key(2, 7, 80)).is_none());
}

#[test]
fn glyph_keys_separate_their_fields() {
    assert_eq!(pack_glyph_key(0, 0, 5), 5);
    assert_eq!(pack_glyph_key(0, 1, 0), 1 << 32);
    assert_eq!(pack_glyph_key(1, 0, 0), 1 << 48);
    assert_ne!(pack_glyph_key(1, 2, 3), pack_glyph_key(2, 1, 3));
}
