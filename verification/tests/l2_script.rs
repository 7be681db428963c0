use jpnorm_core::l2_script::era::era_to_western;
use jpnorm_core::l2_script::iteration::expand_iteration_marks;
use jpnorm_core::l2_script::kana::{hira_to_kata, kata_to_hira};
use jpnorm_core::l2_script::loanword::{strip_trailing_prolonged, unify_loanword_kana};
use jpnorm_core::l2_script::numbers::canonicalize;
use jpnorm_core::l2_script::numerals::{
    arabic_to_kansuji, arabic_to_kansuji_checked, format_kansuji, has_kansuji_form, kansuji_to_arabic,
    parse_kansuji,
};

#[test]
fn full_names() {
    assert_eq!(era_to_western("令和6年3月"), "2024年3月");
    assert_eq!(era_to_western("令和元年"), "2019年");
    assert_eq!(era_to_western("平成30年度"), "2018年度");
    assert_eq!(era_to_western("昭和64年と平成元年"), "1989年と1989年");
    assert_eq!(era_to_western("明治45年"), "1912年");
}

#[test]
fn kansuji_years() {
    assert_eq!(era_to_western("令和六年"), "2024年");
    assert_eq!(era_to_western("昭和二十三年"), "1948年");
    assert_eq!(era_to_western("平成十年"), "1998年");
    assert_eq!(era_to_western("大正十五年"), "1926年");
}

#[test]
fn abbreviations() {
    assert_eq!(era_to_western("R6年"), "2024年");
    assert_eq!(era_to_western("H30年度"), "2018年度");
    assert_eq!(era_to_western("S60年"), "1985年");
    assert_eq!(era_to_western("PR6年"), "PR6年");
    assert_eq!(era_to_western("R6"), "R6");
    assert_eq!(era_to_western("R元年"), "R元年");
}

#[test]
fn out_of_range_and_non_era_kept() {
    assert_eq!(era_to_western("令和0年"), "令和0年");
    assert_eq!(era_to_western("平成99年"), "平成99年");
    assert_eq!(era_to_western("2024年"), "2024年");
    assert_eq!(era_to_western("令和の時代"), "令和の時代");
    assert_eq!(era_to_western("R123年"), "R123年");
}

#[test]
fn kanji_marks() {
    assert_eq!(expand_iteration_marks("人々と時々"), "人人と時時");
    assert_eq!(expand_iteration_marks("民々々"), "民民民");
    assert_eq!(expand_iteration_marks("佐々木"), "佐佐木");
}

#[test]
fn kana_marks() {
    assert_eq!(expand_iteration_marks("こゝろ"), "こころ");
    assert_eq!(expand_iteration_marks("いすゞ"), "いすず");
    assert_eq!(expand_iteration_marks("つゞく"), "つづく");
    assert_eq!(expand_iteration_marks("ぶゝ"), "ぶふ");
    assert_eq!(expand_iteration_marks("バナヽ"), "バナナ");
    assert_eq!(expand_iteration_marks("ハヾ"), "ハバ");
}

#[test]
fn marks_without_context_are_kept() {
    assert_eq!(expand_iteration_marks("々"), "々");
    assert_eq!(expand_iteration_marks("A々"), "A々");
    assert_eq!(expand_iteration_marks("あ々"), "あ々");
    assert_eq!(expand_iteration_marks("んゞ"), "んゞ");
}

#[test]
fn h2k() {
    assert_eq!(hira_to_kata("きょうとし"), "キョウトシ");
    assert_eq!(hira_to_kata("がっこう"), "ガッコウ");
}

#[test]
fn k2h() {
    assert_eq!(kata_to_hira("キョウトシ"), "きょうとし");
    assert_eq!(kata_to_hira("ガッコウ"), "がっこう");
}

#[test]
fn mixed_passthrough() {
    assert_eq!(hira_to_kata("あa漢"), "アa漢");
}

#[test]
fn roundtrip() {
    let s = "きょうはいいてんきだ";
    assert_eq!(kata_to_hira(&hira_to_kata(s)), s);
}

#[test]
fn katakana_roundtrip_through_hiragana() {
    let s = "キョウハイイテンキダ";
    assert_eq!(hira_to_kata(&kata_to_hira(s)), s);
}

#[test]
fn vu_series() {
    assert_eq!(unify_loanword_kana("ヴァイオリン"), "バイオリン");
    assert_eq!(unify_loanword_kana("ヴィヴァルディ"), "ビバルデイ");
    assert_eq!(unify_loanword_kana("ヴェネツィア"), "ベネツィア");
    assert_eq!(unify_loanword_kana("ヴォルテール"), "ボルテール");
    assert_eq!(unify_loanword_kana("ヴ"), "ブ");
    assert_eq!(unify_loanword_kana("デジャヴュ"), "デジャビュ");
}

#[test]
fn small_vowels_and_old_kana() {
    assert_eq!(unify_loanword_kana("ウェブサイト"), "ウエブサイト");
    assert_eq!(unify_loanword_kana("ウィキ"), "ウイキ");
    assert_eq!(unify_loanword_kana("パーティー"), "パーテイー");
    assert_eq!(unify_loanword_kana("ディジタル"), "デイジタル");
    assert_eq!(unify_loanword_kana("ヰタ・セクスアリス"), "イタ・セクスアリス");
    assert_eq!(unify_loanword_kana("ヅラ"), "ズラ");
}

#[test]
fn hiragana_and_others_untouched() {
    assert_eq!(unify_loanword_kana("ゔぁ ぢ づ"), "ゔぁ ぢ づ");
    assert_eq!(unify_loanword_kana("hello 日本"), "hello 日本");
}

#[test]
fn trailing_prolonged() {
    assert_eq!(strip_trailing_prolonged("コンピューター", 4), "コンピュータ");
    assert_eq!(strip_trailing_prolonged("サーバー", 4), "サーバ");
    assert_eq!(strip_trailing_prolonged("キー", 4), "キー");
    assert_eq!(strip_trailing_prolonged("カー", 4), "カー");
    assert_eq!(strip_trailing_prolonged("サーバーとキー", 4), "サーバとキー");
    assert_eq!(strip_trailing_prolonged("ー", 4), "ー");
    assert_eq!(strip_trailing_prolonged("ラーメン屋", 4), "ラーメン屋");
}

#[test]
fn strips_thousands_separator() {
    assert_eq!(canonicalize("1,200"), "1200");
    assert_eq!(canonicalize("1,234,567"), "1234567");
}

#[test]
fn strips_trailing_decimal_zeros() {
    assert_eq!(canonicalize("1200.00"), "1200");
    assert_eq!(canonicalize("3.1400"), "3.14");
    assert_eq!(canonicalize("0.50"), "0.5");
}

#[test]
fn leading_zero_stripped() {
    assert_eq!(canonicalize("007"), "7");
    assert_eq!(canonicalize("0"), "0");
    assert_eq!(canonicalize("00.50"), "0.5");
}

#[test]
fn combined() {
    assert_eq!(canonicalize("価格は 1,200.00 円"), "価格は 1200 円");
    assert_eq!(canonicalize("1,234.500"), "1234.5");
}

#[test]
fn does_not_touch_identifier_with_digits() {
    assert_eq!(canonicalize("abc123"), "abc123");
}

#[test]
fn invalid_grouping_not_collapsed() {
    let out = canonicalize("1,23");
    assert!(out.starts_with('1'));
}

#[test]
fn negative_unaffected_sign_handled_externally() {
    assert_eq!(canonicalize("-1200.00"), "-1200");
}

#[test]
fn multiple_numbers() {
    assert_eq!(canonicalize("1,000 と 2,000.50"), "1000 と 2000.5");
}

#[test]
fn simple_sequence() {
    assert_eq!(kansuji_to_arabic("一二三"), "123");
}

#[test]
fn with_units() {
    assert_eq!(kansuji_to_arabic("十"), "10");
    assert_eq!(kansuji_to_arabic("二十"), "20");
    assert_eq!(kansuji_to_arabic("一千二百三十四"), "1234");
    assert_eq!(kansuji_to_arabic("三億五千万"), "350000000");
    assert_eq!(kansuji_to_arabic("一兆"), "1000000000000");
}

#[test]
fn embedded_in_text() {
    assert_eq!(kansuji_to_arabic("第一章と第二節"), "第1章と第2節");
}

#[test]
fn arabic_to_kan_basic() {
    assert_eq!(arabic_to_kansuji("1234"), "千二百三十四");
    assert_eq!(arabic_to_kansuji("350000000"), "三億五千万");
    assert_eq!(arabic_to_kansuji("0"), "〇");
}

#[test]
fn arabic_to_kansuji_without_a_form() {
    // 10^20 fits in u128 but has no kanji numeral here.
    assert!(!has_kansuji_form("100000000000000000000"));
    assert_eq!(arabic_to_kansuji_checked("100000000000000000000"), None);
    // A run too long for u128 stays as it is.
    let long = "1".repeat(40);
    assert!(has_kansuji_form(&long));
    assert_eq!(arabic_to_kansuji_checked(&long), Some(long.clone()));
    assert_eq!(arabic_to_kansuji_checked("第12章"), Some("第十二章".to_string()));
}

#[test]
fn does_not_convert_common_words_containing_large_units() {
    assert_eq!(kansuji_to_arabic("京都"), "京都");
    assert_eq!(kansuji_to_arabic("東京"), "東京");
    assert_eq!(kansuji_to_arabic("兆し"), "兆し");
    assert_eq!(kansuji_to_arabic("京王線"), "京王線");
}

#[test]
fn roundtrip_small() {
    for n in [10u128, 99, 100, 1234, 9999, 10000, 350000000] {
        let k = format_kansuji(n);
        let back = parse_kansuji(&k, None, None).unwrap();
        assert_eq!(back, n, "roundtrip {n} via {k}");
    }
}

#[test]
fn mixed_arabic_and_kanji_units() {
    assert_eq!(kansuji_to_arabic("1万2千"), "12000");
    assert_eq!(kansuji_to_arabic("3千円"), "3000円");
    assert_eq!(kansuji_to_arabic("2千5百"), "2500");
    assert_eq!(kansuji_to_arabic("12万3456人"), "123456人");
    assert_eq!(kansuji_to_arabic("1.5億"), "150000000");
    assert_eq!(kansuji_to_arabic("3.25万"), "32500");
    assert_eq!(kansuji_to_arabic("1,200万円"), "12000000円");
    assert_eq!(kansuji_to_arabic("100万"), "1000000");
    assert_eq!(kansuji_to_arabic("1億2000万"), "120000000");
}

#[test]
fn overflow_leaves_input_untouched() {
    let digits: String = "一二三四五六七八九".chars().cycle().take(37).collect();
    let s = format!("{digits}千");
    assert_eq!(kansuji_to_arabic(&s), s);
    let s = format!("{digits}京");
    assert_eq!(kansuji_to_arabic(&s), s);
}

#[test]
fn mixed_edge_cases_untouched() {
    assert_eq!(kansuji_to_arabic("1.23456万"), "1.23456万");
    assert_eq!(kansuji_to_arabic("第1一"), "第1一");
    assert_eq!(kansuji_to_arabic("2024年3月 1,200円 3.14"), "2024年3月 1,200円 3.14");
    assert_eq!(kansuji_to_arabic("1,20万"), "1,200000");
}

#[test]
fn text_without_digits_is_kept_by_arabic_to_kansuji() {
    assert_eq!(arabic_to_kansuji("漢字だけの文"), "漢字だけの文");
    assert_eq!(arabic_to_kansuji_checked("abc"), Some("abc".to_string()));
}

#[test]
fn text_without_kanji_numerals_is_kept() {
    assert_eq!(kansuji_to_arabic("ABC 1,200.50 円"), "ABC 1,200.50 円");
}

#[test]
fn kansuji_roundtrip_large_numbers() {
    for n in [10u128, 11, 10001, 100000001, 123456789012345678, 99999999999999999999] {
        let k = format_kansuji(n);
        assert_eq!(parse_kansuji(&k, None, None), Some(n), "roundtrip {n} via {k}");
    }
    assert_eq!(format_kansuji(100000001), "一億一");
}
