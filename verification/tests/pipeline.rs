use jpnorm_core::distance::levenshtein;
use jpnorm_core::{
    Config, EmojiAction, Normalizer, NormalizerBuilder, Preset, ProtectConfig, ProtectKind, Segment,
    SynonymDict,
};

#[test]
fn idempotent_for_search() {
    let n = Normalizer::preset(Preset::ForSearch);
    let once = n.normalize("ﾊﾝｶｸｶﾅ　と  全角  ！！ーーー");
    let twice = n.normalize(&once);
    assert_eq!(once, twice, "normalize must be idempotent");
}

#[test]
fn builder_matches_preset() {
    let a = Normalizer::preset(Preset::ForSearch).normalize("テスト〜〜〜");
    let b = Normalizer::builder().preset(Preset::ForSearch).build().normalize("テスト〜〜〜");
    assert_eq!(a, b);
}

#[test]
fn url_is_preserved() {
    let n = Normalizer::builder().halfwidth_kana_to_fullwidth().protect_urls().build();
    let out = n.normalize("ｶﾅ と https://example.com/PATH を見て");
    assert!(out.contains("https://example.com/PATH"));
    assert!(out.contains("カナ"));
}

#[test]
fn sanitize_invisible_all() {
    let n = Normalizer::builder().sanitize_invisible().build();
    let s = "a\u{200B}b\r\nc\u{202E}d\x07e";
    assert_eq!(n.normalize(s), "ab\ncde");
}

#[test]
fn kansuji_conversion() {
    let n = Normalizer::builder().kansuji_to_arabic().build();
    assert_eq!(n.normalize("第一千二百三十四章"), "第1234章");
}

#[test]
fn arabic_to_kansuji_step() {
    let n = Normalizer::builder().arabic_to_kansuji().build();
    assert_eq!(n.normalize("第12章"), "第十二章");
    assert_eq!(n.try_normalize("100000000000000000000"), None);
    assert!(n.try_normalize_with_segments("100000000000000000000").is_none());
    assert_eq!(n.try_normalize("第3話"), Some("第三話".to_string()));
}

#[test]
fn url_wrap_angle_default() {
    let n = Normalizer::builder().wrap_urls_angle().build();
    let out = n.normalize("見て https://example.com/a を");
    assert!(out.contains("<https://example.com/a>"));
}

#[test]
fn url_wrap_custom() {
    let n = Normalizer::builder().wrap_urls("`", "`").build();
    let out = n.normalize("https://example.com");
    assert_eq!(out, "`https://example.com`");
}

#[test]
fn remove_symbols_flag() {
    let n = Normalizer::builder().remove_symbols().build();
    assert_eq!(n.normalize("hello, world!「テスト」"), "hello worldテスト");
    let keep = Normalizer::builder().build();
    assert_eq!(keep.normalize("hello!"), "hello!");
}

#[test]
fn remove_cjk_compat_flag() {
    let n = Normalizer::builder().remove_cjk_compat().build();
    assert_eq!(n.normalize("①②㈱kanon㌔"), "kanon");
}

#[test]
fn emoji_remove() {
    let n = Normalizer::builder().remove_emoji().build();
    assert_eq!(n.normalize("hi 😀!"), "hi !");
}

#[test]
fn emoji_replace_and_keep() {
    let n = Normalizer::builder().replace_emoji("[E]").build();
    assert_eq!(n.normalize("hi 😀!"), "hi [E]!");
    let n = Normalizer::builder().remove_emoji().keep_emoji().build();
    assert_eq!(n.normalize("hi 😀!"), "hi 😀!");
}

#[test]
fn builder_default_equals_new() {
    assert_eq!(NormalizerBuilder::default().build().config(), NormalizerBuilder::new().build().config());
}

#[test]
fn normalizer_default_is_neologdn_compat() {
    assert_eq!(Normalizer::default().config(), &Config::neologdn_compat());
}

#[test]
fn configure_can_disable_preset_flags() {
    let n = Normalizer::builder()
        .preset(Preset::ForSearch)
        .configure(|mut c| {
            c.emoji_action = EmojiAction::Keep;
            c
        })
        .build();
    assert_eq!(n.normalize("ｶﾅ😀"), "カナ😀");
}

#[test]
fn config_mut_edits_in_place() {
    let mut b = Normalizer::builder().preset(Preset::ForSearch);
    b.config_mut().emoji_action = EmojiAction::Keep;
    let n = b.build();
    assert_eq!(n.normalize("ｶﾅ😀"), "カナ😀");
}

#[test]
fn kana_unification() {
    let n = Normalizer::builder().halfwidth_kana_to_fullwidth().kata_to_hira().build();
    assert_eq!(n.normalize("ﾃｽﾄとテスト"), "てすととてすと");
    let n = Normalizer::builder().hira_to_kata().build();
    assert_eq!(n.normalize("ひらがな"), "ヒラガナ");
}

#[test]
fn builder_synonyms_applied() {
    let mut d = SynonymDict::new();
    d.insert("PC", "パソコン");
    let n = Normalizer::builder().synonyms(d).build();
    assert_eq!(n.normalize("PCを買う"), "パソコンを買う");
}

#[test]
fn with_synonyms_and_accessors() {
    let mut d = SynonymDict::new();
    d.insert("PC", "パソコン");
    let n = Normalizer::preset(Preset::Noop);
    assert!(n.synonyms().is_none());
    let n = n.with_synonyms(d);
    assert_eq!(n.synonyms().map(|d| d.len()), Some(1));
    assert_eq!(n.normalize("PC"), "パソコン");
    let n = Normalizer::from_config(Config::for_display());
    assert_eq!(n.config(), &Config::for_display());
}

#[test]
fn url_wrap_owned_strings() {
    let prefix = String::from("[");
    let n = Normalizer::builder().wrap_urls(&prefix, "]").build();
    assert_eq!(n.normalize("https://example.com"), "[https://example.com]");
}

#[test]
fn segments_expose_protected_ranges() {
    let n = Normalizer::builder().protect_all().build();
    let r = n.normalize_with_segments("@alice と https://example.com だよ");
    let has_mention = r
        .segments
        .iter()
        .any(|s| matches!(s, Segment::Protected { kind: ProtectKind::Mention, .. }));
    let has_url = r.segments.iter().any(|s| matches!(s, Segment::Protected { kind: ProtectKind::Url, .. }));
    assert!(has_mention && has_url);
}

#[test]
fn segments_and_trim_around_protected_regions() {
    let n = Normalizer::builder().protect_urls().trim().collapse_spaces().build();
    let r = n.normalize_with_segments("  見て https://example.com/a  ");
    assert_eq!(r.text, "見て https://example.com/a");
    assert_eq!(
        r.segments,
        vec![
            Segment::Normalized("見て ".to_string()),
            Segment::Protected { text: "https://example.com/a".to_string(), kind: ProtectKind::Url },
        ]
    );
    let n = Normalizer::builder().protect(ProtectConfig { urls: false, emails: true, mentions: false, hashtags: false }).trim().build();
    let r = n.normalize_with_segments("   ");
    assert!(r.segments.is_empty());
    assert_eq!(r.text, "");
}

#[test]
fn batch_normalizes_each() {
    let n = Normalizer::preset(Preset::ForSearch);
    let out = n.normalize_batch(&["ＰＹＴＨＯＮ入門 〜〜 初心者向け🔰", "python 入門（初心者向け）"]);
    assert_eq!(out, vec!["PYTHON入門 〜 初心者向け".to_string(), "python 入門(初心者向け)".to_string()]);
}

#[test]
fn readme_for_search_example() {
    let n = Normalizer::preset(Preset::ForSearch);
    assert_eq!(n.normalize("ﾊﾝｶｸｶﾅ　と  全角  ！！"), "ハンカクカナ と 全角 !!");
    assert_eq!(
        n.normalize("詳細は https://example.com/Docs?Q=1 を参照 📎"),
        "詳細は https://example.com/Docs?Q=1 を参照"
    );
}

#[test]
fn readme_for_compare_example() {
    let n = Normalizer::preset(Preset::ForCompare);
    assert_eq!(n.normalize("合計：￥１，２００（税込）"), "合計¥1200税込");
    assert_eq!(n.normalize("合計:¥1,200(税込)"), "合計¥1200税込");
    assert_eq!(n.normalize("第一章　はじめに"), "第1章 はじめに");
}

#[test]
fn levenshtein_basic() {
    assert_eq!(levenshtein("kitten", "sitting"), 3);
    assert_eq!(levenshtein("", "abc"), 3);
    assert_eq!(levenshtein("同じ", "同じ"), 0);
    assert_eq!(levenshtein("東京", "東京都"), 1);
}

#[test]
fn levenshtein_symmetric_cases() {
    assert_eq!(levenshtein("sitting", "kitten"), 3);
    assert_eq!(levenshtein("abc", ""), 3);
    assert_eq!(levenshtein("ab", "ba"), 2);
}

#[test]
fn segments_without_protection_are_all_normalized() {
    let mut c = Config::for_search();
    c.protect = ProtectConfig::default();
    let n = Normalizer::from_config(c);
    assert!(!n.config().protect.any());
    let r = n.normalize_with_segments("  見て https://example.com/a と @alice  ");
    assert!(r.segments.iter().all(|s| matches!(s, Segment::Normalized(_))));
    let joined: String = r
        .segments
        .iter()
        .map(|s| match s {
            Segment::Normalized(t) => t.as_str(),
            Segment::Protected { text, .. } => text.as_str(),
        })
        .collect();
    assert_eq!(joined, r.text);
}

#[test]
fn no_empty_normalized_segment() {
    let n = Normalizer::builder().protect_all().trim().build();
    let r = n.normalize_with_segments("  https://example.com/a   @bob  ");
    assert!(r.segments.iter().all(|s| match s {
        Segment::Normalized(t) => !t.is_empty(),
        Segment::Protected { .. } => true,
    }));
    assert_eq!(r.text, n.normalize("  https://example.com/a   @bob  "));
}
