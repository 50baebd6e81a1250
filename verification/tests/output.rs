//! The code and source map that a compilation hands back.

use inlining::output::{append_inline_map, keeps_comment, SourceMapsConfig, TransformOutput};

const PREFIX: &str = "\n//# sourceMappingURL=data:application/json;base64,";

#[test]
fn map_beside_the_code() {
    let out = TransformOutput::new(
        "a;".to_string(),
        Some("{\"version\":3}".to_string()),
        &SourceMapsConfig::Bool(true),
    );
    assert_eq!(out.code, "a;");
    assert_eq!(out.map, Some("{\"version\":3}".to_string()));
}

#[test]
fn no_map_where_none_is_asked_for() {
    let out = TransformOutput::new(
        "a;".to_string(),
        Some("{\"version\":3}".to_string()),
        &SourceMapsConfig::Bool(false),
    );
    assert_eq!(out, TransformOutput { code: "a;".to_string(), map: None });
}

#[test]
fn map_inside_the_code() {
    let out = TransformOutput::new(
        "a;".to_string(),
        Some("{\"version\":3}".to_string()),
        &SourceMapsConfig::Str("inline".to_string()),
    );
    assert_eq!(out.code, format!("a;{}eyJ2ZXJzaW9uIjozfQ==", PREFIX));
    assert_eq!(out.map, None);
}

#[test]
fn inline_config_without_a_map_leaves_the_code() {
    let out =
        TransformOutput::new("a;".to_string(), None, &SourceMapsConfig::Str("inline".to_string()));
    assert_eq!(out, TransformOutput { code: "a;".to_string(), map: None });
}

#[test]
fn inline_map_uses_the_url_safe_alphabet() {
    assert_eq!(append_inline_map(String::new(), "??>"), format!("{}Pz8-", PREFIX));
    assert_eq!(append_inline_map("x".to_string(), "\u{e9}~~"), format!("x{}w6l-fg==", PREFIX));
}

#[test]
fn inline_map_is_padded() {
    assert_eq!(append_inline_map(String::new(), ""), PREFIX);
    assert_eq!(append_inline_map(String::new(), "a"), format!("{}YQ==", PREFIX));
    assert_eq!(append_inline_map(String::new(), "ab"), format!("{}YWI=", PREFIX));
    assert_eq!(append_inline_map(String::new(), "abc"), format!("{}YWJj", PREFIX));
}

#[test]
fn source_maps_are_enabled_unless_switched_off() {
    assert!(SourceMapsConfig::Bool(true).enabled());
    assert!(!SourceMapsConfig::Bool(false).enabled());
    assert!(SourceMapsConfig::Str(String::new()).enabled());
}

#[test]
fn comments_that_begin_with_an_exclamation_mark_are_kept() {
    assert!(keeps_comment("! license"));
    assert!(keeps_comment("!"));
    assert!(!keeps_comment(""));
    assert!(!keeps_comment(" !"));
    assert!(!keeps_comment("license!"));
    assert!(!keeps_comment("\u{a1}!"));
}
