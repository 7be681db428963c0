//! Hiragana ↔ katakana.
//!
//! Hiragana U+3041..U+3096 and katakana U+30A1..U+30F6 correspond one to one
//! at an offset of `0x60`, as do the iteration marks ゝゞ / ヽヾ.
use vstd::prelude::*;
use crate::text::{chars_of, string_of, char_from_u32};

verus! {

/// How hiragana and katakana are treated.
#[derive(Debug, Clone, Copy, PartialEq, Eq, Structural)]
pub enum KanaAction {
    /// Unchanged.
    Keep,
    /// Hiragana become katakana.
    HiraToKata,
    /// Katakana become hiragana.
    KataToHira,
}

impl Default for KanaAction {
    fn default() -> (r: Self)
        ensures
            r == KanaAction::Keep,
    {
        KanaAction::Keep
    }
}

/// Hiragana that have a katakana counterpart (U+3041..U+3096, ゝ, ゞ).
pub open spec fn is_hiragana(c: char) -> bool {
    let u = c as u32;
    (0x3041 <= u && u <= 0x3096) || u == 0x309D || u == 0x309E
}

/// Katakana that have a hiragana counterpart (U+30A1..U+30F6, ヽ, ヾ).
pub open spec fn is_katakana(c: char) -> bool {
    let u = c as u32;
    (0x30A1 <= u && u <= 0x30F6) || u == 0x30FD || u == 0x30FE
}

/// The katakana for a hiragana character; any other character is kept.
pub open spec fn to_kata(c: char) -> char {
    if is_hiragana(c) {
        ((c as u32) + 0x60) as char
    } else {
        c
    }
}

/// The hiragana for a katakana character; any other character is kept.
pub open spec fn to_hira(c: char) -> char {
    if is_katakana(c) {
        ((c as u32) - 0x60) as char
    } else {
        c
    }
}

fn kata_of(c: char) -> (r: char)
    ensures
        r == to_kata(c),
{
    let u = c as u32;
    if (0x3041 <= u && u <= 0x3096) || u == 0x309D || u == 0x309E {
        match char_from_u32(u + 0x60) {
            Some(k) => k,
            None => c,
        }
    } else {
        c
    }
}

fn hira_of(c: char) -> (r: char)
    ensures
        r == to_hira(c),
{
    let u = c as u32;
    if (0x30A1 <= u && u <= 0x30F6) || u == 0x30FD || u == 0x30FE {
        match char_from_u32(u - 0x60) {
            Some(h) => h,
            None => c,
        }
    } else {
        c
    }
}

/// Converts hiragana to katakana, character by character.
pub fn hira_to_kata(input: &str) -> (out: String)
    ensures
        out@ == input@.map_values(|c: char| to_kata(c)),
{
    let chars = chars_of(input);
    let ghost s = chars@;
    let mut out: Vec<char> = Vec::new();
    let mut i: usize = 0;
    while i < chars.len()
        invariant
            i <= chars.len(),
            s == chars@,
            out@ == s.take(i as int).map_values(|c: char| to_kata(c)),
        decreases chars.len() - i,
    {
        out.push(kata_of(chars[i]));
        i = i + 1;
        proof {
            assert(out@ =~= s.take(i as int).map_values(|c: char| to_kata(c)));
        }
    }
    proof {
        assert(s.take(i as int) =~= s);
    }
    string_of(&out)
}

/// Converts katakana to hiragana, character by character.
pub fn kata_to_hira(input: &str) -> (out: String)
    ensures
        out@ == input@.map_values(|c: char| to_hira(c)),
{
    let chars = chars_of(input);
    let ghost s = chars@;
    let mut out: Vec<char> = Vec::new();
    let mut i: usize = 0;
    while i < chars.len()
        invariant
            i <= chars.len(),
            s == chars@,
            out@ == s.take(i as int).map_values(|c: char| to_hira(c)),
        decreases chars.len() - i,
    {
        out.push(hira_of(chars[i]));
        i = i + 1;
        proof {
            assert(out@ =~= s.take(i as int).map_values(|c: char| to_hira(c)));
        }
    }
    proof {
        assert(s.take(i as int) =~= s);
    }
    string_of(&out)
}

/// What [`process`] returns for each action.
pub open spec fn process_spec(s: Seq<char>, action: KanaAction) -> Seq<char> {
    match action {
        KanaAction::Keep => s,
        KanaAction::HiraToKata => s.map_values(|c: char| to_kata(c)),
        KanaAction::KataToHira => s.map_values(|c: char| to_hira(c)),
    }
}

/// Converts kana as `action` says.
pub fn process(input: &str, action: KanaAction) -> (out: String)
    ensures
        out@ == process_spec(input@, action),
{
    match action {
        KanaAction::Keep => input.to_owned(),
        KanaAction::HiraToKata => hira_to_kata(input),
        KanaAction::KataToHira => kata_to_hira(input),
    }
}

/// Text without katakana comes back unchanged from katakana and back to
/// hiragana: `kata_to_hira(hira_to_kata(s)) == s`.
pub proof fn lemma_hira_kata_roundtrip(s: Seq<char>)
    requires
        forall|i: int| 0 <= i < s.len() ==> !is_katakana(#[trigger] s[i]),
    ensures
        s.map_values(|c: char| to_kata(c)).map_values(|c: char| to_hira(c)) == s,
{
    assert forall|i: int| 0 <= i < s.len() implies to_hira(to_kata(#[trigger] s[i])) == s[i] by {
        let c = s[i];
        if is_hiragana(c) {
            let k = ((c as u32) + 0x60) as char;
            assert(k as u32 == (c as u32) + 0x60);
            assert(is_katakana(k));
            vstd::utf8::char_u32_cast(c, ((k as u32) - 0x60) as u32);
        }
    }
    assert(s.map_values(|c: char| to_kata(c)).map_values(|c: char| to_hira(c)) =~= s);
}

/// Text without hiragana comes back unchanged from hiragana and back to
/// katakana: `hira_to_kata(kata_to_hira(s)) == s`.
pub proof fn lemma_kata_hira_roundtrip(s: Seq<char>)
    requires
        forall|i: int| 0 <= i < s.len() ==> !is_hiragana(#[trigger] s[i]),
    ensures
        s.map_values(|c: char| to_hira(c)).map_values(|c: char| to_kata(c)) == s,
{
    assert forall|i: int| 0 <= i < s.len() implies to_kata(to_hira(#[trigger] s[i])) == s[i] by {
        let c = s[i];
        if is_katakana(c) {
            let h = ((c as u32) - 0x60) as char;
            assert(h as u32 == (c as u32) - 0x60);
            assert(is_hiragana(h));
            vstd::utf8::char_u32_cast(c, ((h as u32) + 0x60) as u32);
        }
    }
    assert(s.map_values(|c: char| to_hira(c)).map_values(|c: char| to_kata(c)) =~= s);
}

} // verus!
