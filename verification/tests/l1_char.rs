use jpnorm_core::l1_char::case;
use jpnorm_core::l1_char::cjk_compat::expand;
use jpnorm_core::l1_char::cleanup::{normalize_newlines, remove_bidi_control, remove_control, remove_zero_width};
use jpnorm_core::l1_char::prolonged;
use jpnorm_core::l1_char::quotes::unify as unify_quotes;
use jpnorm_core::l1_char::repeat::shorten;
use jpnorm_core::l1_char::spaces;
use jpnorm_core::l1_char::spacing;
use jpnorm_core::l1_char::strip::{remove_cjk_compat, remove_symbols};
use jpnorm_core::l1_char::symbols::unify as unify_symbols;
use jpnorm_core::l1_char::unicode::nfkc;
use jpnorm_core::l1_char::width::halfwidth_kana_to_fullwidth;
use jpnorm_core::{CaseAction, CjkSpacing};

#[test]
fn lower_and_upper() {
    assert_eq!(case::process("Python と Rust", CaseAction::Lower), "python と rust");
    assert_eq!(case::process("Python と Rust", CaseAction::Upper), "PYTHON と RUST");
    assert_eq!(case::process("Straße", CaseAction::Lower), "straße");
    assert_eq!(case::process("日本語", CaseAction::Lower), "日本語");
}

#[test]
fn case_keep_is_identity() {
    assert_eq!(case::process("Python", CaseAction::Keep), "Python");
}

#[test]
fn company_marks() {
    assert_eq!(expand("㈱kanon"), "(株)kanon");
}

#[test]
fn circled_digits() {
    assert_eq!(expand("①②⑩"), "1210");
}

#[test]
fn variant_forms() {
    assert_eq!(expand("髙橋"), "高橋");
}

#[test]
fn newlines_crlf() {
    assert_eq!(normalize_newlines("a\r\nb\rc\nd"), "a\nb\nc\nd");
}

#[test]
fn newlines_unicode_breaks() {
    assert_eq!(normalize_newlines("a\u{2028}b\u{2029}c\u{0085}d"), "a\nb\nc\nd");
}

#[test]
fn zero_width_strip() {
    let s = "a\u{200B}b\u{FEFF}c\u{2060}d\u{200C}e";
    assert_eq!(remove_zero_width(s), "abcde");
}

#[test]
fn zwj_preserved_for_emoji() {
    let s = "x\u{200D}y";
    assert_eq!(remove_zero_width(s), "x\u{200D}y");
}

#[test]
fn control_strip() {
    let s = "a\x00b\x07c\x1Fd\x7Fe\u{0085}f\tg\nh";
    assert_eq!(remove_control(s), "abcdef\tg\nh");
}

#[test]
fn bidi_strip() {
    let s = "admin\u{202E}reverse\u{202C}";
    assert_eq!(remove_bidi_control(s), "adminreverse");
}

#[test]
fn collapse_prolonged() {
    assert_eq!(prolonged::collapse("ーーーー"), "ー");
    assert_eq!(prolonged::collapse("ウェーーーーイ"), "ウェーイ");
    assert_eq!(prolonged::collapse("すごーーーーい"), "すごーい");
}

#[test]
fn preserves_other_repeats() {
    assert_eq!(prolonged::collapse("wwwww"), "wwwww");
    assert_eq!(prolonged::collapse("あああ"), "あああ");
}

#[test]
fn collapse_tilde_like_prolonged() {
    assert_eq!(prolonged::collapse("〜〜〜"), "〜");
}

#[test]
fn smart_to_straight() {
    assert_eq!(unify_quotes("“hello” ‘world’"), "\"hello\" 'world'");
}

#[test]
fn leaves_japanese_brackets() {
    assert_eq!(unify_quotes("「日本語」"), "「日本語」");
}

#[test]
fn shrink_basic() {
    assert_eq!(shorten("ウェーーーーイ", 2), "ウェーーイ");
    assert_eq!(shorten("abc", 2), "abc");
}

#[test]
fn ascii_alnum_is_never_shortened() {
    assert_eq!(shorten("hello", 1), "hello");
    assert_eq!(shorten("1200", 1), "1200");
    assert_eq!(shorten("wwwww", 3), "wwwww");
}

#[test]
fn shorten_limit_zero_keeps_one() {
    assert_eq!(shorten("ああああ", 0), "あ");
}

#[test]
fn single_space_preserved() {
    assert_eq!(spaces::collapse("日本語 の 文章"), "日本語 の 文章");
    assert_eq!(spaces::collapse("日本語 text 混在"), "日本語 text 混在");
}

#[test]
fn runs_collapsed_to_one() {
    assert_eq!(spaces::collapse("hello   world"), "hello world");
    assert_eq!(spaces::collapse("日本語   です"), "日本語 です");
}

#[test]
fn fullwidth_space_becomes_single_halfwidth() {
    assert_eq!(spaces::collapse("日本語　と　英語"), "日本語 と 英語");
}

#[test]
fn mixed_space_types() {
    assert_eq!(spaces::collapse("a \t　 b"), "a b");
}

#[test]
fn newlines_preserved() {
    assert_eq!(spaces::collapse("line1\nline2"), "line1\nline2");
}

#[test]
fn remove_between_cjk() {
    let remove = |s: &str| spacing::process(s, CjkSpacing::Remove);
    assert_eq!(remove("日本語 の 文章"), "日本語の文章");
    assert_eq!(remove("日本語 text 混在"), "日本語text混在");
    assert_eq!(remove("Python と Rust"), "PythonとRust");
    assert_eq!(remove("hello world"), "hello world");
    assert_eq!(remove(" 前後 "), " 前後 ");
    assert_eq!(remove("日本語  と  英語"), "日本語と英語");
}

#[test]
fn insert_at_boundaries() {
    let insert = |s: &str| spacing::process(s, CjkSpacing::Insert);
    assert_eq!(insert("日本語text混在"), "日本語 text 混在");
    assert_eq!(insert("PythonとRust3"), "Python と Rust3");
    assert_eq!(insert("日本語 text"), "日本語 text");
    assert_eq!(insert("日本語(text)"), "日本語(text)");
    assert_eq!(insert("価格は1200円"), "価格は 1200 円");
}

#[test]
fn keep_is_identity() {
    assert_eq!(spacing::process("日本語 text", CjkSpacing::Keep), "日本語 text");
}

#[test]
fn symbols_removed() {
    assert_eq!(remove_symbols("hello, world!"), "hello world");
    assert_eq!(remove_symbols("これは「テスト」です。"), "これはテストです");
}

#[test]
fn symbols_keep_japanese_letters() {
    let s = "ひらがなカタカナ漢字ABC123";
    assert_eq!(remove_symbols(s), s);
}

#[test]
fn cjk_compat_removed() {
    assert_eq!(remove_cjk_compat("①②③kanon"), "kanon");
    assert_eq!(remove_cjk_compat("㈱テスト"), "テスト");
    assert_eq!(remove_cjk_compat("㌔メートル"), "メートル");
}

#[test]
fn hyphen_unify() {
    assert_eq!(unify_symbols("ab‐cd—ef−gh", true, false, false), "ab-cd-ef-gh");
}

#[test]
fn tilde_unify() {
    assert_eq!(unify_symbols("a~b～c", true, true, false), "a〜b〜c");
}

#[test]
fn basic_nfkc() {
    assert_eq!(nfkc("ＡＢＣ１２３"), "ABC123");
}

#[test]
fn basic() {
    assert_eq!(halfwidth_kana_to_fullwidth("ﾊﾝｶｸｶﾅ"), "ハンカクカナ");
}

#[test]
fn voiced_compose() {
    assert_eq!(halfwidth_kana_to_fullwidth("ｶﾞｷﾞｸﾞ"), "ガギグ");
    assert_eq!(halfwidth_kana_to_fullwidth("ﾊﾟﾋﾟﾌﾟ"), "パピプ");
}

#[test]
fn mixed() {
    assert_eq!(halfwidth_kana_to_fullwidth("ｷｮｳﾄｼ ABC"), "キョウトシ ABC");
}

#[test]
fn folding_keeps_other_characters() {
    assert_eq!(spaces::collapse("a\n\n  b\tc"), "a\n\n b c");
    assert_eq!(prolonged::collapse("ーー〜〜ーx"), "ー〜ーx");
    assert_eq!(shorten("aaaaa!!!!!", 1), "aaaaa!");
}

#[test]
fn lone_sound_marks_become_fullwidth() {
    assert_eq!(halfwidth_kana_to_fullwidth("ｱﾞ"), "ア゛");
    assert_eq!(halfwidth_kana_to_fullwidth("ﾟ"), "゜");
    assert_eq!(halfwidth_kana_to_fullwidth("ｳﾞﾞ"), "ヴ゛");
    let out = halfwidth_kana_to_fullwidth("｡｢ｱﾞﾟｰﾝ｣");
    assert!(!out.chars().any(|c| ('\u{FF61}'..='\u{FF9F}').contains(&c)));
}
