//! Expansion of iteration marks (々 ゝ ゞ ヽ ヾ 〻).
//!
//! A search index wants 人々 and 人人, いすゞ and いすず to match. As in
//! Lucene's `JapaneseIterationMarkCharFilter`, a mark becomes a repetition of
//! the character before it:
//!
//! - `々` `〻`: after a kanji, that kanji
//! - `ゝ` `ヽ`: after a kana, its unvoiced form
//! - `ゞ` `ヾ`: after a kana, its voiced form
//!
//! A mark after anything else (start of text, symbol, letter) is kept.
use vstd::prelude::*;
use crate::text::{chars_of, string_of, is_scalar, char_from_u32};

verus! {

/// CJK ideographs: U+3400..U+4DBF, U+4E00..U+9FFF, U+F900..U+FAFF, U+20000..U+2FFFF.
pub open spec fn is_kanji(c: char) -> bool {
    let u = c as u32;
    (0x3400 <= u && u <= 0x4DBF) || (0x4E00 <= u && u <= 0x9FFF) || (0xF900 <= u && u <= 0xFAFF)
        || (0x20000 <= u && u <= 0x2FFFF)
}

/// Hiragana U+3041..U+3096.
pub open spec fn is_hiragana(c: char) -> bool {
    let u = c as u32;
    0x3041 <= u && u <= 0x3096
}

/// Katakana U+30A1..U+30FA.
pub open spec fn is_katakana(c: char) -> bool {
    let u = c as u32;
    0x30A1 <= u && u <= 0x30FA
}

/// The offset from a katakana to its hiragana (0 for other characters).
pub open spec fn kana_shift(c: char) -> int {
    if is_katakana(c) {
        0x60
    } else {
        0
    }
}

/// Hiragana with a dakuten (が … ぼ).
pub open spec fn is_voiced_code(b: int) -> bool {
    b == 'が' as int || b == 'ぎ' as int || b == 'ぐ' as int || b == 'げ' as int || b == 'ご' as int
        || b == 'ざ' as int || b == 'じ' as int || b == 'ず' as int || b == 'ぜ' as int || b
        == 'ぞ' as int || b == 'だ' as int || b == 'ぢ' as int || b == 'づ' as int || b == 'で' as int
        || b == 'ど' as int || b == 'ば' as int || b == 'び' as int || b == 'ぶ' as int || b
        == 'べ' as int || b == 'ぼ' as int
}

/// Hiragana with a handakuten (ぱ … ぽ).
pub open spec fn is_semi_voiced_code(b: int) -> bool {
    b == 'ぱ' as int || b == 'ぴ' as int || b == 'ぷ' as int || b == 'ぺ' as int || b == 'ぽ' as int
}

/// Hiragana that take a dakuten (か … ほ).
pub open spec fn is_voiceable_code(b: int) -> bool {
    b == 'か' as int || b == 'き' as int || b == 'く' as int || b == 'け' as int || b == 'こ' as int
        || b == 'さ' as int || b == 'し' as int || b == 'す' as int || b == 'せ' as int || b
        == 'そ' as int || b == 'た' as int || b == 'ち' as int || b == 'つ' as int || b == 'て' as int
        || b == 'と' as int || b == 'は' as int || b == 'ひ' as int || b == 'ふ' as int || b
        == 'へ' as int || b == 'ほ' as int
}

/// The character with code `u`, or `fallback` when `u` is no scalar value.
pub open spec fn char_or(u: int, fallback: char) -> char {
    if 0 <= u <= u32::MAX && is_scalar(u as u32) {
        u as char
    } else {
        fallback
    }
}

/// The unvoiced form of a kana (read on the hiragana code): が → か, ぱ → は,
/// ゔ → う; other characters are kept.
pub open spec fn unvoice_spec(c: char) -> char {
    let base = (c as u32) - kana_shift(c);
    let u = if is_voiced_code(base) {
        base - 1
    } else if is_semi_voiced_code(base) {
        base - 2
    } else if base == 'ゔ' as int {
        'う' as int
    } else {
        base
    };
    char_or(u + kana_shift(c), c)
}

/// The voiced form of a kana: か → が, う → ゔ; `None` for a kana without one.
pub open spec fn voice_spec(c: char) -> Option<char> {
    let base = (c as u32) - kana_shift(c);
    let u = if is_voiceable_code(base) {
        Some(base + 1)
    } else if base == 'う' as int {
        Some('ゔ' as int)
    } else {
        None
    };
    match u {
        Some(v) => if 0 <= v + kana_shift(c) <= u32::MAX && is_scalar((v + kana_shift(c)) as u32) {
            Some((v + kana_shift(c)) as char)
        } else {
            None
        },
        None => None,
    }
}

fn katakana(c: char) -> (b: bool)
    ensures
        b == is_katakana(c),
{
    let u = c as u32;
    0x30A1 <= u && u <= 0x30FA
}

fn voiced_code(b: u32) -> (r: bool)
    ensures
        r == is_voiced_code(b as int),
{
    b == 'が' as u32 || b == 'ぎ' as u32 || b == 'ぐ' as u32 || b == 'げ' as u32 || b == 'ご' as u32
        || b == 'ざ' as u32 || b == 'じ' as u32 || b == 'ず' as u32 || b == 'ぜ' as u32 || b
        == 'ぞ' as u32 || b == 'だ' as u32 || b == 'ぢ' as u32 || b == 'づ' as u32 || b == 'で' as u32
        || b == 'ど' as u32 || b == 'ば' as u32 || b == 'び' as u32 || b == 'ぶ' as u32 || b
        == 'べ' as u32 || b == 'ぼ' as u32
}

fn semi_voiced_code(b: u32) -> (r: bool)
    ensures
        r == is_semi_voiced_code(b as int),
{
    b == 'ぱ' as u32 || b == 'ぴ' as u32 || b == 'ぷ' as u32 || b == 'ぺ' as u32 || b == 'ぽ' as u32
}

fn voiceable_code(b: u32) -> (r: bool)
    ensures
        r == is_voiceable_code(b as int),
{
    b == 'か' as u32 || b == 'き' as u32 || b == 'く' as u32 || b == 'け' as u32 || b == 'こ' as u32
        || b == 'さ' as u32 || b == 'し' as u32 || b == 'す' as u32 || b == 'せ' as u32 || b
        == 'そ' as u32 || b == 'た' as u32 || b == 'ち' as u32 || b == 'つ' as u32 || b == 'て' as u32
        || b == 'と' as u32 || b == 'は' as u32 || b == 'ひ' as u32 || b == 'ふ' as u32 || b
        == 'へ' as u32 || b == 'ほ' as u32
}

fn unvoice(c: char) -> (r: char)
    ensures
        r == unvoice_spec(c),
{
    let cp = c as u32;
    let (base, shift): (u32, u32) = if katakana(c) {
        (cp - 0x60, 0x60)
    } else {
        (cp, 0)
    };
    let u: u32 = if voiced_code(base) {
        base - 1
    } else if semi_voiced_code(base) {
        base - 2
    } else if base == 'ゔ' as u32 {
        'う' as u32
    } else {
        base
    };
    match char_from_u32(u + shift) {
        Some(r) => r,
        None => c,
    }
}

fn voice(c: char) -> (r: Option<char>)
    ensures
        r == voice_spec(c),
{
    let cp = c as u32;
    let (base, shift): (u32, u32) = if katakana(c) {
        (cp - 0x60, 0x60)
    } else {
        (cp, 0)
    };
    let u: u32 = if voiceable_code(base) {
        base + 1
    } else if base == 'う' as u32 {
        'ゔ' as u32
    } else {
        return None;
    };
    char_from_u32(u + shift)
}

/// What the mark `c` stands for after the character `prev`, if it stands
/// for anything.
pub open spec fn expansion(c: char, prev: Option<char>) -> Option<char> {
    match prev {
        None => None,
        Some(p) => if (c == '々' || c == '〻') && is_kanji(p) {
            Some(p)
        } else if c == 'ゝ' && is_hiragana(p) {
            Some(unvoice_spec(p))
        } else if c == 'ゞ' && is_hiragana(p) {
            voice_spec(unvoice_spec(p))
        } else if c == 'ヽ' && is_katakana(p) {
            Some(unvoice_spec(p))
        } else if c == 'ヾ' && is_katakana(p) {
            voice_spec(unvoice_spec(p))
        } else {
            None
        },
    }
}

/// The character written for `c` after `prev`.
pub open spec fn emitted(c: char, prev: Option<char>) -> char {
    match expansion(c, prev) {
        Some(x) => x,
        None => c,
    }
}

/// Expansion of `s`, read from the front, `prev` being the last character
/// written (an expanded mark repeats as what it stands for: 民々々 → 民民民).
pub open spec fn expand_from(prev: Option<char>, s: Seq<char>) -> Seq<char>
    decreases s.len(),
{
    if s.len() == 0 {
        seq![]
    } else {
        let e = emitted(s[0], prev);
        seq![e] + expand_from(Some(e), s.skip(1))
    }
}

fn expand_one(c: char, prev: Option<char>) -> (r: char)
    ensures
        r == emitted(c, prev),
{
    let x = match prev {
        None => None,
        Some(p) => {
            let u = p as u32;
            let kanji = (0x3400 <= u && u <= 0x4DBF) || (0x4E00 <= u && u <= 0x9FFF) || (0xF900
                <= u && u <= 0xFAFF) || (0x20000 <= u && u <= 0x2FFFF);
            let hira = 0x3041 <= u && u <= 0x3096;
            let kata = katakana(p);
            if (c == '々' || c == '〻') && kanji {
                Some(p)
            } else if c == 'ゝ' && hira {
                Some(unvoice(p))
            } else if c == 'ゞ' && hira {
                voice(unvoice(p))
            } else if c == 'ヽ' && kata {
                Some(unvoice(p))
            } else if c == 'ヾ' && kata {
                voice(unvoice(p))
            } else {
                None
            }
        },
    };
    match x {
        Some(e) => e,
        None => c,
    }
}

/// Expands iteration marks (see the module documentation).
pub fn expand_iteration_marks(input: &str) -> (out: String)
    ensures
        out@ == expand_from(None, input@),
{
    let chars = chars_of(input);
    let ghost s = chars@;
    let mut out: Vec<char> = Vec::new();
    let mut prev: Option<char> = None;
    let mut i: usize = 0;
    proof {
        assert(s.skip(0) =~= s);
    }
    while i < chars.len()
        invariant
            i <= chars.len(),
            s == chars@,
            out@ + expand_from(prev, s.skip(i as int)) == expand_from(None, s),
        decreases chars.len() - i,
    {
        let e = expand_one(chars[i], prev);
        proof {
            assert(s.skip(i as int).skip(1) =~= s.skip(i + 1));
            assert(out@.push(e) + expand_from(Some(e), s.skip(i + 1)) =~= out@ + (seq![e]
                + expand_from(Some(e), s.skip(i + 1))));
        }
        out.push(e);
        prev = Some(e);
        i = i + 1;
    }
    proof {
        assert(s.skip(i as int) =~= Seq::<char>::empty());
        assert(out@ + Seq::<char>::empty() =~= out@);
    }
    string_of(&out)
}

} // verus!
