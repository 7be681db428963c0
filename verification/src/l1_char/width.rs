//! Half-width / full-width kana conversion.
//!
//! Converts half-width kana to full-width kana and composes a following
//! voiced (`ﾞ`) or semi-voiced (`ﾟ`) sound mark.
use vstd::prelude::*;
use crate::text::{chars_of, string_of};

verus! {

/// The full-width counterpart of a half-width kana, punctuation mark or
/// sound mark (U+FF61..U+FF9F; a sound mark on its own becomes `゛` / `゜`);
/// `None` for every other character.
pub open spec fn halfwidth_base(c: char) -> Option<char> {
    match c {
        '｡' => Some('。'),
        '｢' => Some('「'),
        '｣' => Some('」'),
        '､' => Some('、'),
        '･' => Some('・'),
        'ｦ' => Some('ヲ'),
        'ｧ' => Some('ァ'),
        'ｨ' => Some('ィ'),
        'ｩ' => Some('ゥ'),
        'ｪ' => Some('ェ'),
        'ｫ' => Some('ォ'),
        'ｬ' => Some('ャ'),
        'ｭ' => Some('ュ'),
        'ｮ' => Some('ョ'),
        'ｯ' => Some('ッ'),
        'ｰ' => Some('ー'),
        'ｱ' => Some('ア'),
        'ｲ' => Some('イ'),
        'ｳ' => Some('ウ'),
        'ｴ' => Some('エ'),
        'ｵ' => Some('オ'),
        'ｶ' => Some('カ'),
        'ｷ' => Some('キ'),
        'ｸ' => Some('ク'),
        'ｹ' => Some('ケ'),
        'ｺ' => Some('コ'),
        'ｻ' => Some('サ'),
        'ｼ' => Some('シ'),
        'ｽ' => Some('ス'),
        'ｾ' => Some('セ'),
        'ｿ' => Some('ソ'),
        'ﾀ' => Some('タ'),
        'ﾁ' => Some('チ'),
        'ﾂ' => Some('ツ'),
        'ﾃ' => Some('テ'),
        'ﾄ' => Some('ト'),
        'ﾅ' => Some('ナ'),
        'ﾆ' => Some('ニ'),
        'ﾇ' => Some('ヌ'),
        'ﾈ' => Some('ネ'),
        'ﾉ' => Some('ノ'),
        'ﾊ' => Some('ハ'),
        'ﾋ' => Some('ヒ'),
        'ﾌ' => Some('フ'),
        'ﾍ' => Some('ヘ'),
        'ﾎ' => Some('ホ'),
        'ﾏ' => Some('マ'),
        'ﾐ' => Some('ミ'),
        'ﾑ' => Some('ム'),
        'ﾒ' => Some('メ'),
        'ﾓ' => Some('モ'),
        'ﾔ' => Some('ヤ'),
        'ﾕ' => Some('ユ'),
        'ﾖ' => Some('ヨ'),
        'ﾗ' => Some('ラ'),
        'ﾘ' => Some('リ'),
        'ﾙ' => Some('ル'),
        'ﾚ' => Some('レ'),
        'ﾛ' => Some('ロ'),
        'ﾜ' => Some('ワ'),
        'ﾝ' => Some('ン'),
        'ﾞ' => Some('゛'),
        'ﾟ' => Some('゜'),
        _ => None,
    }
}

/// The voiced form of a full-width kana, where it has one.
pub open spec fn voiced_of(c: char) -> Option<char> {
    match c {
        'カ' => Some('ガ'),
        'キ' => Some('ギ'),
        'ク' => Some('グ'),
        'ケ' => Some('ゲ'),
        'コ' => Some('ゴ'),
        'サ' => Some('ザ'),
        'シ' => Some('ジ'),
        'ス' => Some('ズ'),
        'セ' => Some('ゼ'),
        'ソ' => Some('ゾ'),
        'タ' => Some('ダ'),
        'チ' => Some('ヂ'),
        'ツ' => Some('ヅ'),
        'テ' => Some('デ'),
        'ト' => Some('ド'),
        'ハ' => Some('バ'),
        'ヒ' => Some('ビ'),
        'フ' => Some('ブ'),
        'ヘ' => Some('ベ'),
        'ホ' => Some('ボ'),
        'ウ' => Some('ヴ'),
        _ => None,
    }
}

/// The semi-voiced form of a full-width kana, where it has one.
pub open spec fn semi_voiced_of(c: char) -> Option<char> {
    match c {
        'ハ' => Some('パ'),
        'ヒ' => Some('ピ'),
        'フ' => Some('プ'),
        'ヘ' => Some('ペ'),
        'ホ' => Some('ポ'),
        _ => None,
    }
}

fn map_halfwidth(c: char) -> (r: Option<char>)
    ensures
        r == halfwidth_base(c),
{
    match c {
        '｡' => Some('。'),
        '｢' => Some('「'),
        '｣' => Some('」'),
        '､' => Some('、'),
        '･' => Some('・'),
        'ｦ' => Some('ヲ'),
        'ｧ' => Some('ァ'),
        'ｨ' => Some('ィ'),
        'ｩ' => Some('ゥ'),
        'ｪ' => Some('ェ'),
        'ｫ' => Some('ォ'),
        'ｬ' => Some('ャ'),
        'ｭ' => Some('ュ'),
        'ｮ' => Some('ョ'),
        'ｯ' => Some('ッ'),
        'ｰ' => Some('ー'),
        'ｱ' => Some('ア'),
        'ｲ' => Some('イ'),
        'ｳ' => Some('ウ'),
        'ｴ' => Some('エ'),
        'ｵ' => Some('オ'),
        'ｶ' => Some('カ'),
        'ｷ' => Some('キ'),
        'ｸ' => Some('ク'),
        'ｹ' => Some('ケ'),
        'ｺ' => Some('コ'),
        'ｻ' => Some('サ'),
        'ｼ' => Some('シ'),
        'ｽ' => Some('ス'),
        'ｾ' => Some('セ'),
        'ｿ' => Some('ソ'),
        'ﾀ' => Some('タ'),
        'ﾁ' => Some('チ'),
        'ﾂ' => Some('ツ'),
        'ﾃ' => Some('テ'),
        'ﾄ' => Some('ト'),
        'ﾅ' => Some('ナ'),
        'ﾆ' => Some('ニ'),
        'ﾇ' => Some('ヌ'),
        'ﾈ' => Some('ネ'),
        'ﾉ' => Some('ノ'),
        'ﾊ' => Some('ハ'),
        'ﾋ' => Some('ヒ'),
        'ﾌ' => Some('フ'),
        'ﾍ' => Some('ヘ'),
        'ﾎ' => Some('ホ'),
        'ﾏ' => Some('マ'),
        'ﾐ' => Some('ミ'),
        'ﾑ' => Some('ム'),
        'ﾒ' => Some('メ'),
        'ﾓ' => Some('モ'),
        'ﾔ' => Some('ヤ'),
        'ﾕ' => Some('ユ'),
        'ﾖ' => Some('ヨ'),
        'ﾗ' => Some('ラ'),
        'ﾘ' => Some('リ'),
        'ﾙ' => Some('ル'),
        'ﾚ' => Some('レ'),
        'ﾛ' => Some('ロ'),
        'ﾜ' => Some('ワ'),
        'ﾝ' => Some('ン'),
        'ﾞ' => Some('゛'),
        'ﾟ' => Some('゜'),
        _ => None,
    }
}

fn voiced(c: char) -> (r: Option<char>)
    ensures
        r == voiced_of(c),
{
    match c {
        'カ' => Some('ガ'),
        'キ' => Some('ギ'),
        'ク' => Some('グ'),
        'ケ' => Some('ゲ'),
        'コ' => Some('ゴ'),
        'サ' => Some('ザ'),
        'シ' => Some('ジ'),
        'ス' => Some('ズ'),
        'セ' => Some('ゼ'),
        'ソ' => Some('ゾ'),
        'タ' => Some('ダ'),
        'チ' => Some('ヂ'),
        'ツ' => Some('ヅ'),
        'テ' => Some('デ'),
        'ト' => Some('ド'),
        'ハ' => Some('バ'),
        'ヒ' => Some('ビ'),
        'フ' => Some('ブ'),
        'ヘ' => Some('ベ'),
        'ホ' => Some('ボ'),
        'ウ' => Some('ヴ'),
        _ => None,
    }
}

fn semi_voiced(c: char) -> (r: Option<char>)
    ensures
        r == semi_voiced_of(c),
{
    match c {
        'ハ' => Some('パ'),
        'ヒ' => Some('ピ'),
        'フ' => Some('プ'),
        'ヘ' => Some('ペ'),
        'ホ' => Some('ポ'),
        _ => None,
    }
}

/// Conversion read from the front: a half-width kana becomes its full-width
/// form, composed with a following `ﾞ` / `ﾟ` where the composed form exists
/// (the mark is then consumed too); other characters are kept.
pub open spec fn halfwidth_spec(s: Seq<char>) -> Seq<char>
    decreases s.len(),
{
    if s.len() == 0 {
        seq![]
    } else {
        match halfwidth_base(s[0]) {
            Some(base) => {
                if s.len() > 1 && s[1] == 'ﾞ' && voiced_of(base) is Some {
                    seq![voiced_of(base)->0] + halfwidth_spec(s.skip(2))
                } else if s.len() > 1 && s[1] == 'ﾟ' && semi_voiced_of(base) is Some {
                    seq![semi_voiced_of(base)->0] + halfwidth_spec(s.skip(2))
                } else {
                    seq![base] + halfwidth_spec(s.skip(1))
                }
            },
            None => seq![s[0]] + halfwidth_spec(s.skip(1)),
        }
    }
}

/// Whether `c` is a half-width kana, punctuation mark or sound mark
/// (U+FF61..U+FF9F).
pub open spec fn is_halfwidth_kana(c: char) -> bool {
    '\u{FF61}' <= c && c <= '\u{FF9F}'
}

/// Every half-width kana has a full-width counterpart, and no counterpart or
/// composed form is half-width.
pub proof fn lemma_halfwidth_base_covers(c: char)
    ensures
        is_halfwidth_kana(c) ==> halfwidth_base(c) is Some,
        halfwidth_base(c) matches Some(b) ==> !is_halfwidth_kana(b),
        voiced_of(c) matches Some(v) ==> !is_halfwidth_kana(v),
        semi_voiced_of(c) matches Some(v) ==> !is_halfwidth_kana(v),
{
}

/// No half-width kana (U+FF61..U+FF9F) is left in the converted text.
pub proof fn lemma_halfwidth_spec_clean(s: Seq<char>)
    ensures
        forall|k: int|
            0 <= k < halfwidth_spec(s).len() ==> !is_halfwidth_kana(#[trigger] halfwidth_spec(s)[k]),
    decreases s.len(),
{
    if s.len() > 0 {
        lemma_halfwidth_base_covers(s[0]);
        lemma_halfwidth_spec_clean(s.skip(1));
        if s.len() > 1 {
            lemma_halfwidth_spec_clean(s.skip(2));
        }
        let r = halfwidth_spec(s);
        match halfwidth_base(s[0]) {
            Some(base) => {
                lemma_halfwidth_base_covers(base);
                let rest = if s.len() > 1 && s[1] == 'ﾞ' && voiced_of(base) is Some {
                    halfwidth_spec(s.skip(2))
                } else if s.len() > 1 && s[1] == 'ﾟ' && semi_voiced_of(base) is Some {
                    halfwidth_spec(s.skip(2))
                } else {
                    halfwidth_spec(s.skip(1))
                };
                assert(r == seq![r[0]] + rest);
                assert forall|k: int| 0 <= k < r.len() implies !is_halfwidth_kana(#[trigger] r[k]) by {
                    if k > 0 {
                        assert(r[k] == rest[k - 1]);
                    }
                }
            },
            None => {
                let rest = halfwidth_spec(s.skip(1));
                assert forall|k: int| 0 <= k < r.len() implies !is_halfwidth_kana(#[trigger] r[k]) by {
                    if k > 0 {
                        assert(r[k] == rest[k - 1]);
                    }
                }
            },
        }
    }
}

/// Composing sound marks: a half-width kana whose full-width form `b` is
/// one of カ…ト or ハ…ホ, followed by `ﾞ`, becomes the kana with a
/// dakuten, the code point right after `b` (ハ + ﾞ → バ), and ｳ + ﾞ becomes
/// ヴ; one whose form is
/// ハ…ホ, followed by `ﾟ`, becomes the kana with a handakuten, two code
/// points after `b` (ハ + ﾟ → パ); any other kana keeps the mark as a
/// separate full-width mark.
pub proof fn lemma_sound_mark_composition(h: char)
    ensures
        halfwidth_base(h) matches Some(b) ==> {
            let dakuten = seq![
                'カ', 'キ', 'ク', 'ケ', 'コ', 'サ', 'シ', 'ス', 'セ', 'ソ', 'タ', 'チ', 'ツ', 'テ',
                'ト', 'ハ', 'ヒ', 'フ', 'ヘ', 'ホ',
            ];
            let handakuten = seq!['ハ', 'ヒ', 'フ', 'ヘ', 'ホ'];
            &&& dakuten.contains(b) ==> halfwidth_spec(seq![h, 'ﾞ']) == seq![
                ((b as u32) + 1) as char,
            ]
            &&& b == 'ウ' ==> halfwidth_spec(seq![h, 'ﾞ']) == seq!['ヴ']
            &&& !dakuten.contains(b) && b != 'ウ' ==> halfwidth_spec(seq![h, 'ﾞ']) == seq![b, '゛']
            &&& handakuten.contains(b) ==> halfwidth_spec(seq![h, 'ﾟ']) == seq![
                ((b as u32) + 2) as char,
            ]
            &&& !handakuten.contains(b) ==> halfwidth_spec(seq![h, 'ﾟ']) == seq![b, '゜']
        },
{
    let t1 = seq![h, 'ﾞ'];
    let t2 = seq![h, 'ﾟ'];
    assert(t1.skip(2) =~= Seq::<char>::empty());
    assert(t2.skip(2) =~= Seq::<char>::empty());
    assert(t1.skip(1) =~= seq!['ﾞ']);
    assert(t2.skip(1) =~= seq!['ﾟ']);
    assert(seq!['ﾞ'].skip(1) =~= Seq::<char>::empty());
    assert(seq!['ﾟ'].skip(1) =~= Seq::<char>::empty());
    assert(halfwidth_spec(seq!['ﾞ']) == seq!['゛'] + halfwidth_spec(Seq::<char>::empty()));
    assert(halfwidth_spec(seq!['ﾟ']) == seq!['゜'] + halfwidth_spec(Seq::<char>::empty()));
    match halfwidth_base(h) {
        Some(b) => {
            let dakuten = seq![
                'カ', 'キ', 'ク', 'ケ', 'コ', 'サ', 'シ', 'ス', 'セ', 'ソ', 'タ', 'チ', 'ツ', 'テ',
                'ト', 'ハ', 'ヒ', 'フ', 'ヘ', 'ホ',
            ];
            let handakuten = seq!['ハ', 'ヒ', 'フ', 'ヘ', 'ホ'];
            assert(dakuten.contains(b) || b == 'ウ' <==> voiced_of(b) is Some) by {
                if voiced_of(b) is Some && b != 'ウ' {
                    assert(dakuten.contains(b));
                }
            }
            assert(handakuten.contains(b) <==> semi_voiced_of(b) is Some) by {
                if semi_voiced_of(b) is Some {
                    assert(handakuten.contains(b));
                }
            }
            assert(seq![b] + seq!['゛'] =~= seq![b, '゛']);
            assert(seq![b] + seq!['゜'] =~= seq![b, '゜']);
            if voiced_of(b) is Some {
                assert(b != 'ウ' ==> voiced_of(b)->0 == ((b as u32) + 1) as char);
                assert(halfwidth_spec(t1) == seq![voiced_of(b)->0] + halfwidth_spec(t1.skip(2)));
                assert(seq![voiced_of(b)->0] + Seq::<char>::empty() =~= seq![voiced_of(b)->0]);
            } else {
                assert(halfwidth_spec(t1) == seq![b] + halfwidth_spec(t1.skip(1)));
            }
            if semi_voiced_of(b) is Some {
                assert(semi_voiced_of(b)->0 == ((b as u32) + 2) as char);
                assert(halfwidth_spec(t2) == seq![semi_voiced_of(b)->0] + halfwidth_spec(t2.skip(2)));
                assert(seq![semi_voiced_of(b)->0] + Seq::<char>::empty() =~= seq![semi_voiced_of(b)->0]);
            } else {
                assert(halfwidth_spec(t2) == seq![b] + halfwidth_spec(t2.skip(1)));
            }
        },
        None => {},
    }
}

/// Converts half-width kana (U+FF61..U+FF9F) to full-width kana, composing
/// following voiced / semi-voiced sound marks; none is left in the result.
pub fn halfwidth_kana_to_fullwidth(input: &str) -> (out: String)
    ensures
        out@ == halfwidth_spec(input@),
        forall|k: int| 0 <= k < out@.len() ==> !is_halfwidth_kana(#[trigger] out@[k]),
{
    let chars = chars_of(input);
    let ghost s = chars@;
    let mut out: Vec<char> = Vec::new();
    let mut i: usize = 0;
    proof {
        assert(s.skip(0) =~= s);
    }
    while i < chars.len()
        invariant
            i <= chars.len(),
            s == chars@,
            out@ + halfwidth_spec(s.skip(i as int)) == halfwidth_spec(s),
        decreases chars.len() - i,
    {
        let c = chars[i];
        proof {
            assert(s.skip(i as int).skip(1) =~= s.skip(i + 1));
            if i + 1 < chars.len() {
                assert(s.skip(i as int).skip(2) =~= s.skip(i + 2));
            }
        }
        match map_halfwidth(c) {
            Some(base) => {
                let has_next = i + 1 < chars.len();
                let next_voiced = has_next && chars[i + 1] == 'ﾞ';
                let next_semi = has_next && chars[i + 1] == 'ﾟ';
                if next_voiced {
                    match voiced(base) {
                        Some(v) => {
                            out.push(v);
                            i = i + 2;
                            continue;
                        },
                        None => {},
                    }
                } else if next_semi {
                    match semi_voiced(base) {
                        Some(v) => {
                            out.push(v);
                            i = i + 2;
                            continue;
                        },
                        None => {},
                    }
                }
                out.push(base);
                i = i + 1;
            },
            None => {
                out.push(c);
                i = i + 1;
            },
        }
    }
    proof {
        assert(s.skip(i as int) =~= Seq::<char>::empty());
        assert(out@ + Seq::<char>::empty() =~= out@);
        lemma_halfwidth_spec_clean(s);
    }
    string_of(&out)
}

} // verus!
