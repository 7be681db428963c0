use jpnorm_core::{Normalizer, Preset};

const CASES: &[(Preset, &str)] = &[
    (Preset::Noop, "hello world"),
    (Preset::Noop, "日本語のテキスト"),
    (Preset::Noop, "   前後空白   "),
    (Preset::Noop, "ＡＢＣ１２３"),
    (Preset::Noop, "ｶﾀｶﾅ"),
    (Preset::NeologdnCompat, "hello world"),
    (Preset::NeologdnCompat, "ＡＢＣ１２３"),
    (Preset::NeologdnCompat, "ｶﾀｶﾅ"),
    (Preset::NeologdnCompat, "ﾊﾝｶｸ ｶﾅ"),
    (Preset::NeologdnCompat, "  前後空白  "),
    (Preset::NeologdnCompat, "連続   空白"),
    (Preset::NeologdnCompat, "日本語 と 英語"),
    (Preset::NeologdnCompat, "Python と Rust"),
    (Preset::NeologdnCompat, "ーーーー長音ーーー"),
    (Preset::NeologdnCompat, "〜〜〜チルダ〜〜〜"),
    (Preset::NeologdnCompat, "a-b‐c−d―e—f"),
    (Preset::NeologdnCompat, "!!!！！！？？？"),
    (Preset::NeologdnCompat, "100%オフ"),
    (Preset::NeologdnCompat, "改行\r\nと\rCR"),
    (Preset::NeologdnCompat, "ゼロ幅\u{200B}削除"),
    (Preset::NeologdnCompat, "BOM\u{FEFF}つき"),
    (Preset::NeologdnCompat, "制御\u{0001}文字"),
    (Preset::NeologdnCompat, "Bidi\u{202E}攻撃"),
    (Preset::NeologdnCompat, "タブ\tは残る"),
    (Preset::NeologdnCompat, "改行\nは残る"),
    (Preset::NeologdnCompat, ""),
    (Preset::NeologdnCompat, "a"),
    (Preset::NeologdnCompat, "ａｂｃＡＢＣ"),
    (Preset::NeologdnCompat, "１２３４５"),
    (Preset::NeologdnCompat, "㈱髙㌔①"),
    (Preset::NeologdnCompat, "〜"),
    (Preset::NeologdnCompat, "ーー"),
    (Preset::NeologdnCompat, "あーーーい"),
    (Preset::NeologdnCompat, "スーパー〜"),
    (Preset::NeologdnCompat, "“hello”"),
    (Preset::NeologdnCompat, "‘world’"),
    (Preset::NeologdnCompat, "あ  い  う"),
    (Preset::NeologdnCompat, "ＡＢＣ ＡＢＣ"),
    (Preset::NeologdnCompat, "3.14"),
    (Preset::NeologdnCompat, "カレーライス"),
    (Preset::NeologdnCompat, "ｶﾞｷﾞｸﾞｹﾞｺﾞ"),
    (Preset::NeologdnCompat, "ﾊﾟﾋﾟﾌﾟﾍﾟﾎﾟ"),
    (Preset::ForSearch, "hello world"),
    (Preset::ForSearch, "ＡＢＣ１２３"),
    (Preset::ForSearch, "ｶﾀｶﾅ テスト"),
    (Preset::ForSearch, "㈱髙㌔"),
    (Preset::ForSearch, "絵文字😀テスト"),
    (Preset::ForSearch, "http://example.com/path を参照"),
    (Preset::ForSearch, "mail@example.com まで"),
    (Preset::ForSearch, "@user さん"),
    (Preset::ForSearch, "#タグ付き"),
    (Preset::ForSearch, "“quotes” ‘apos’"),
    (Preset::ForSearch, "連続ーーーー長音"),
    (Preset::ForSearch, "連続!!!!!!"),
    (Preset::ForSearch, "連続あああああ"),
    (Preset::ForSearch, "改行\r\n混在\rCR"),
    (Preset::ForSearch, "  トリム  "),
    (Preset::ForDisplay, "ｶﾀｶﾅ"),
    (Preset::ForDisplay, "ＡＢＣ"),
    (Preset::ForDisplay, "  前後  "),
    (Preset::ForDisplay, "a-b‐c"),
    (Preset::ForDisplay, "ーーー"),
    (Preset::ForDisplay, "連続   空白"),
    (Preset::ForDisplay, "日本語 text"),
    (Preset::ForDisplay, "絵文字😀残る"),
    (Preset::ForDisplay, "㈱そのまま"),
    (Preset::ForDisplay, "“quotes”"),
    (Preset::ForCompare, "hello world"),
    (Preset::ForCompare, "ＡＢＣ１２３"),
    (Preset::ForCompare, "ｶﾀｶﾅ テスト"),
    (Preset::ForCompare, "一千二百三十四"),
    (Preset::ForCompare, "三億五千万"),
    (Preset::ForCompare, "第一章"),
    (Preset::ForCompare, "二〇二五年"),
    (Preset::ForCompare, "一兆円"),
    (Preset::ForCompare, "京都"),
    (Preset::ForCompare, "東京"),
    (Preset::ForCompare, "兆し"),
    (Preset::ForCompare, "京王線"),
    (Preset::ForCompare, "万歳"),
    (Preset::ForCompare, "億万長者"),
    (Preset::ForCompare, "こんにちは、世界！"),
    (Preset::ForCompare, "A, B, C."),
    (Preset::ForCompare, "これは「テスト」です"),
    (Preset::ForCompare, "（株）テスト"),
    (Preset::ForCompare, "😀あいう😃"),
    (Preset::ForCompare, "  前後  "),
    (Preset::ForCompare, "日本語 と 英語 の 混在"),
    (Preset::ForCompare, "スーパーーーー"),
    (Preset::ForCompare, "〜〜〜"),
    (Preset::ForCompare, "a-b‐c−d―e—f"),
    (Preset::ForCompare, "ＡＢＣ ＡＢＣ"),
    (Preset::ForCompare, "あああ"),
    (Preset::ForCompare, "わーーい"),
    (Preset::ForCompare, "!!!"),
    (Preset::ForCompare, "㈱髙㌔"),
    (Preset::ForCompare, "①②③"),
    (Preset::ForCompare, "㍻㍼㍽"),
    (Preset::ForCompare, "ﾊﾝｶｸｶﾅ"),
    (Preset::ForCompare, "ｶﾞｷﾞｸﾞ"),
    (Preset::ForCompare, "http://example.com"),
    (Preset::ForCompare, "mail@example.com"),
    (Preset::ForCompare, "abc\u{202E}def"),
    (Preset::ForCompare, ""),
    (Preset::ForCompare, "a"),
    (Preset::ForCompare, "【速報】東京で第一位！！！"),
    (Preset::ForCompare, "2025年1月1日、新年あけましておめでとう🎍"),
    (Preset::ForCompare, "価格: ￥1,200(税込)"),
    (Preset::ForCompare, "Python と Rust で実装"),
    (Preset::ForCompare, "ｸﾞｯﾄﾞ！！ 絵文字😀 混じり"),
    (Preset::ForCompare, "ハイフン-‐−―—の統一"),
    (Preset::ForCompare, "連続    空白の    畳み込み"),
    (Preset::NeologdnCompat, "abc\u{00A0}def"),
    (Preset::NeologdnCompat, "タブ\t残す"),
    (Preset::NeologdnCompat, "全角\u{3000}スペース"),
    (Preset::NeologdnCompat, "¥1,200"),
    (Preset::NeologdnCompat, "𩸽"),
    (Preset::NeologdnCompat, "\u{1F600}"),
    (Preset::NeologdnCompat, "〒100-0001"),
    (Preset::NeologdnCompat, "TEL:03-1234-5678"),
    (Preset::NeologdnCompat, "1+1=2"),
    (Preset::NeologdnCompat, "(株)テスト"),
    (Preset::ForSearch, "㍻30年"),
    (Preset::ForSearch, "Ⅰ章とⅡ章"),
    (Preset::ForSearch, "ＡＢＣＡＢＣ"),
    (Preset::ForSearch, "CO₂排出"),
    (Preset::ForSearch, "H₂O"),
    (Preset::ForCompare, "「東京」と『京都』は違う都市です。"),
    (Preset::ForCompare, "2025/01/01"),
    (Preset::ForCompare, "一、二、三"),
    (Preset::ForCompare, "第1回から第10回まで"),
];

const EXPECTED: &[&str] = &[
    "hello world",
    "日本語のテキスト",
    "   前後空白   ",
    "ＡＢＣ１２３",
    "ｶﾀｶﾅ",
    "hello world",
    "ABC123",
    "カタカナ",
    "ハンカク カナ",
    "前後空白",
    "連続 空白",
    "日本語 と 英語",
    "Python と Rust",
    "ー長音ー",
    "〜チルダ〜",
    "a-b-c-d-e-f",
    "!!!!!!???",
    "100%オフ",
    "改行\nと\nCR",
    "ゼロ幅削除",
    "BOMつき",
    "制御文字",
    "Bidi攻撃",
    "タブ は残る",
    "改行\nは残る",
    "",
    "a",
    "abcABC",
    "12345",
    "(株)髙キロ1",
    "〜",
    "ー",
    "あーい",
    "スーパー〜",
    "“hello”",
    "‘world’",
    "あ い う",
    "ABC ABC",
    "3.14",
    "カレーライス",
    "ガギグゲゴ",
    "パピプペポ",
    "hello world",
    "ABC123",
    "カタカナ テスト",
    "(株)高キロ",
    "絵文字テスト",
    "http://example.com/path を参照",
    "mail@example.com まで",
    "@user さん",
    "#タグ付き",
    "\"quotes\" 'apos'",
    "連続ー長音",
    "連続!!",
    "連続ああ",
    "改行\n混在\nCR",
    "トリム",
    "カタカナ",
    "ＡＢＣ",
    "前後",
    "a-b‐c",
    "ーーー",
    "連続   空白",
    "日本語 text",
    "絵文字😀残る",
    "㈱そのまま",
    "“quotes”",
    "hello world",
    "ABC123",
    "カタカナ テスト",
    "1234",
    "350000000",
    "第1章",
    "2025年",
    "1000000000000円",
    "京都",
    "東京",
    "兆し",
    "京王線",
    "万歳",
    "億万長者",
    "こんにちは世界",
    "A B C",
    "これはテストです",
    "株テスト",
    "あいう",
    "前後",
    "日本語 と 英語 の 混在",
    "スーパー",
    "",
    "abcdef",
    "ABC ABC",
    "あ",
    "わーい",
    "",
    "株高キロ",
    "123",
    "平成昭和大正",
    "ハンカクカナ",
    "ガギグ",
    "httpexamplecom",
    "mailexamplecom",
    "abcdef",
    "",
    "a",
    "速報東京で第1位",
    "2025年1月1日新年あけましておめでとう",
    "価格 ¥1200税込",
    "Python と Rust で実装",
    "グッド 絵文字 混じり",
    "ハイフンの統一",
    "連続 空白の 畳み込み",
    "abc def",
    "タブ 残す",
    "全角 スペース",
    "¥1,200",
    "𩸽",
    "😀",
    "〒100-0001",
    "TEL:03-1234-5678",
    "1+1=2",
    "(株)テスト",
    "平成30年",
    "I章とII章",
    "ABCABC",
    "CO2排出",
    "H2O",
    "東京と京都は違う都市です",
    "202511",
    "一二三",
    "第1回から第10回まで",
];


#[test]
fn numeric_equivalence_for_compare() {
    let n = Normalizer::preset(Preset::ForCompare);
    let canonical = n.normalize("1200");
    assert_eq!(canonical, "1200");
    assert_eq!(n.normalize("1,200"), canonical);
    assert_eq!(n.normalize("1200.00"), canonical);
    assert_eq!(n.normalize("01200"), canonical);
    assert_eq!(n.normalize("一千二百"), canonical);
    let pi = n.normalize("3.14");
    assert_eq!(n.normalize("3.1400"), pi);
    assert_eq!(n.normalize("03.14"), pi);
}

#[test]
fn cases_and_expected_lengths_match() {
    assert_eq!(
        CASES.len(),
        EXPECTED.len(),
        "CASES and EXPECTED differ in length (CASES={}, EXPECTED={})",
        CASES.len(),
        EXPECTED.len()
    );
    assert!(
        CASES.len() >= 100,
        "keep at least 100 cases (now {})",
        CASES.len()
    );
}

#[test]
fn normalize_snapshot() {
    let mut failures: Vec<String> = Vec::new();
    for (i, ((preset, input), expected)) in CASES.iter().zip(EXPECTED.iter()).enumerate() {
        let n = Normalizer::preset(*preset);
        let actual = n.normalize(input);
        if actual != *expected {
            failures.push(format!(
                "[{i}] preset={preset:?}\n  input   = {input:?}\n  expected= {expected:?}\n  actual  = {actual:?}"
            ));
        }
    }
    assert!(
        failures.is_empty(),
        "{} / {} cases failed:\n{}",
        failures.len(),
        CASES.len(),
        failures.join("\n")
    );
}
