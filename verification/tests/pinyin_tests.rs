use egg::text_utils::{
    build_pinyin_index, build_single_index, extend_keywords_with_pinyin, extend_single_keyword,
};

#[test]
fn ascii_text_has_no_phonetic_index() {
    assert_eq!(build_single_index("Firefox"), None);
    assert_eq!(build_single_index(""), None);
    assert_eq!(build_single_index("hello world 123 !?"), None);
    assert_eq!(build_pinyin_index(&["Firefox", "Chrome"]), None);
    assert_eq!(build_pinyin_index(&[]), None);
}

#[test]
fn two_characters_give_syllables_and_initials() {
    assert_eq!(build_single_index("微信"), Some("weixin|wx".to_string()));
    assert_eq!(build_single_index("拼音"), Some("pinyin|py".to_string()));
}

#[test]
fn characters_without_reading_are_skipped() {
    assert_eq!(build_single_index("QQ音乐 2"), Some("yinle|yl".to_string()));
}

#[test]
fn single_letter_syllable_keeps_only_syllables() {
    // The reading of this character is the single letter "a": initials and
    // syllables are the same text.
    assert_eq!(build_single_index("阿"), Some("a".to_string()));
    assert_eq!(build_single_index("中"), Some("zhong|z".to_string()));
}

#[test]
fn fragments_are_joined_by_one_space() {
    assert_eq!(
        build_pinyin_index(&["微信", "Tencent", "拼音"]),
        Some("weixin|wx pinyin|py".to_string())
    );
    assert_eq!(build_pinyin_index(&["plain", "阿"]), Some("a".to_string()));
}

#[test]
fn keyword_variants_are_appended() {
    let mut target = vec!["kept".to_string()];
    extend_single_keyword("微信", &mut target);
    assert_eq!(target, vec!["kept", "weixin", "wei xin", "wx"]);

    let mut single = Vec::new();
    extend_single_keyword("中", &mut single);
    assert_eq!(single, vec!["zhong", "z"]);

    let mut none = Vec::new();
    extend_single_keyword("WeChat", &mut none);
    assert!(none.is_empty());
}

#[test]
fn keywords_are_extended_in_order() {
    let mut keywords = vec!["微信".to_string(), "WeChat".to_string(), "中".to_string()];
    extend_keywords_with_pinyin(&mut keywords);
    assert_eq!(
        keywords,
        vec!["微信", "WeChat", "中", "weixin", "wei xin", "wx", "zhong", "z"]
    );

    let mut plain = vec!["Firefox".to_string()];
    extend_keywords_with_pinyin(&mut plain);
    assert_eq!(plain, vec!["Firefox"]);
}
