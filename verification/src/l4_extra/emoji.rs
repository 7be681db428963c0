//! Detects emoji and removes or replaces them.
//!
//! The main emoji blocks, ZWJ sequences, variation selectors and flags
//! (regional indicators) are handled in a simple way: a run of emoji
//! components counts as one emoji.
use vstd::prelude::*;
use crate::text::{chars_of, string_of, push_str};

verus! {

/// What to do with emoji.
#[derive(Debug, Clone, PartialEq, Eq)]
pub enum EmojiAction {
    /// Keep them.
    Keep,
    /// Remove them.
    Remove,
    /// Replace each by the given placeholder.
    Replace(String),
}

impl EmojiAction {
    /// A placeholder action for `placeholder`.
    pub fn replace(placeholder: &str) -> (r: EmojiAction)
        ensures
            r matches EmojiAction::Replace(p) && p@ == placeholder@,
    {
        EmojiAction::Replace(placeholder.to_owned())
    }
}

/// Emoji and emoji modifiers: pictographs, emoticons, transport symbols,
/// dingbats, miscellaneous symbols, regional indicators, variation selectors,
/// ZWJ and skin-tone modifiers.
pub open spec fn is_emoji_component(c: char) -> bool {
    let u = c as u32;
    (0x1F300 <= u && u <= 0x1F5FF) || (0x1F600 <= u && u <= 0x1F64F) || (0x1F680 <= u && u
        <= 0x1F6FF) || (0x1F900 <= u && u <= 0x1F9FF) || (0x1FA70 <= u && u <= 0x1FAFF) || (0x2700
        <= u && u <= 0x27BF) || (0x2600 <= u && u <= 0x26FF) || (0x1F1E6 <= u && u <= 0x1F1FF)
        || (0xFE00 <= u && u <= 0xFE0F) || u == 0x200D || (0x1F3FB <= u && u <= 0x1F3FF)
}

fn emoji_component(c: char) -> (b: bool)
    ensures
        b == is_emoji_component(c),
{
    let u = c as u32;
    (0x1F300 <= u && u <= 0x1F5FF) || (0x1F600 <= u && u <= 0x1F64F) || (0x1F680 <= u && u
        <= 0x1F6FF) || (0x1F900 <= u && u <= 0x1F9FF) || (0x1FA70 <= u && u <= 0x1FAFF) || (0x2700
        <= u && u <= 0x27BF) || (0x2600 <= u && u <= 0x26FF) || (0x1F1E6 <= u && u <= 0x1F1FF)
        || (0xFE00 <= u && u <= 0xFE0F) || u == 0x200D || (0x1F3FB <= u && u <= 0x1F3FF)
}

/// What stands in place of one emoji run: the placeholder of `Replace`, else nothing.
pub open spec fn replacement(action: EmojiAction) -> Seq<char> {
    match action {
        EmojiAction::Replace(p) => p@,
        _ => seq![],
    }
}

/// Removal / replacement read from the front; `in_emoji` tells whether the
/// previous character was an emoji component.
pub open spec fn process_from(in_emoji: bool, s: Seq<char>, action: EmojiAction) -> Seq<char>
    decreases s.len(),
{
    if s.len() == 0 {
        seq![]
    } else if is_emoji_component(s[0]) {
        if in_emoji {
            process_from(true, s.skip(1), action)
        } else {
            replacement(action) + process_from(true, s.skip(1), action)
        }
    } else {
        seq![s[0]] + process_from(false, s.skip(1), action)
    }
}

/// What [`process`] returns.
pub open spec fn process_spec(s: Seq<char>, action: EmojiAction) -> Seq<char> {
    if action is Keep {
        s
    } else {
        process_from(false, s, action)
    }
}

/// Treats the emoji of `input` as `action` says. A run of emoji components
/// (a ZWJ sequence, say) counts as one emoji.
pub fn process(input: &str, action: &EmojiAction) -> (out: String)
    ensures
        out@ == process_spec(input@, *action),
{
    if let EmojiAction::Keep = action {
        return input.to_owned();
    }
    let chars = chars_of(input);
    let ghost s = chars@;
    let mut out: Vec<char> = Vec::new();
    let mut in_emoji = false;
    let mut i: usize = 0;
    proof {
        assert(s.skip(0) =~= s);
    }
    while i < chars.len()
        invariant
            i <= chars.len(),
            s == chars@,
            !(action is Keep),
            out@ + process_from(in_emoji, s.skip(i as int), *action) == process_spec(s, *action),
        decreases chars.len() - i,
    {
        let c = chars[i];
        proof {
            assert(s.skip(i as int).skip(1) =~= s.skip(i + 1));
        }
        if emoji_component(c) {
            if !in_emoji {
                if let EmojiAction::Replace(p) = action {
                    push_str(&mut out, p.as_str());
                }
                in_emoji = true;
            }
        } else {
            out.push(c);
            in_emoji = false;
        }
        i = i + 1;
    }
    proof {
        assert(s.skip(i as int) =~= Seq::<char>::empty());
        assert(out@ + Seq::<char>::empty() =~= out@);
    }
    string_of(&out)
}

} // verus!
