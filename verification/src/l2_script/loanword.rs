//! Spelling variants of katakana loanwords.
//!
//! The same word is often written several ways (コンピューター / コンピュータ,
//! ヴァイオリン / バイオリン, ウェブ / ウエブ). These rules, without a
//! dictionary, bring the variants to one form: the aim is not the right
//! spelling but the same form on the index side and on the query side.
//!
//! - [`unify_loanword_kana`]: ヴ forms, ヰ ヱ, ヂ ヅ and small vowels
//! - [`strip_trailing_prolonged`]: the final long-vowel mark of longer
//!   katakana words (as JIS Z 8301 and Lucene's `kuromoji_stemmer` do)
use vstd::prelude::*;
use crate::text::{chars_of, string_of, push_all};

verus! {

/// The one character that `c` followed by `next` becomes, for the two-character
/// rules: ヴァ ヴィ ヴェ ヴォ → バ ビ ベ ボ, ウィ ウェ ウォ → (ウ)イ エ オ,
/// トゥ ドゥ → ツ ズ.
pub open spec fn pair_map(c: char, next: Option<char>) -> Option<char> {
    match next {
        None => None,
        Some(n) => if c == 'ヴ' && n == 'ァ' {
            Some('バ')
        } else if c == 'ヴ' && n == 'ィ' {
            Some('ビ')
        } else if c == 'ヴ' && n == 'ェ' {
            Some('ベ')
        } else if c == 'ヴ' && n == 'ォ' {
            Some('ボ')
        } else if c == 'ウ' && n == 'ィ' {
            Some('イ')
        } else if c == 'ウ' && n == 'ェ' {
            Some('エ')
        } else if c == 'ウ' && n == 'ォ' {
            Some('オ')
        } else if c == 'ト' && n == 'ゥ' {
            Some('ツ')
        } else if c == 'ド' && n == 'ゥ' {
            Some('ズ')
        } else {
            None
        },
    }
}

fn pair_map_exec(c: char, next: Option<char>) -> (r: Option<char>)
    ensures
        r == pair_map(c, next),
{
    match next {
        None => None,
        Some(n) => if c == 'ヴ' && n == 'ァ' {
            Some('バ')
        } else if c == 'ヴ' && n == 'ィ' {
            Some('ビ')
        } else if c == 'ヴ' && n == 'ェ' {
            Some('ベ')
        } else if c == 'ヴ' && n == 'ォ' {
            Some('ボ')
        } else if c == 'ウ' && n == 'ィ' {
            Some('イ')
        } else if c == 'ウ' && n == 'ェ' {
            Some('エ')
        } else if c == 'ウ' && n == 'ォ' {
            Some('オ')
        } else if c == 'ト' && n == 'ゥ' {
            Some('ツ')
        } else if c == 'ド' && n == 'ゥ' {
            Some('ズ')
        } else {
            None
        },
    }
}

/// The one-character rules: ヴ → ブ, ヰ → イ, ヱ → エ, ヂ → ジ, ヅ → ズ.
pub open spec fn single_map(c: char) -> char {
    if c == 'ヴ' {
        'ブ'
    } else if c == 'ヰ' {
        'イ'
    } else if c == 'ヱ' {
        'エ'
    } else if c == 'ヂ' {
        'ジ'
    } else if c == 'ヅ' {
        'ズ'
    } else {
        c
    }
}

fn single_map_exec(c: char) -> (r: char)
    ensures
        r == single_map(c),
{
    if c == 'ヴ' {
        'ブ'
    } else if c == 'ヰ' {
        'イ'
    } else if c == 'ヱ' {
        'エ'
    } else if c == 'ヂ' {
        'ジ'
    } else if c == 'ヅ' {
        'ズ'
    } else {
        c
    }
}

/// The loanword rules applied to `s` from the front; besides the pair and
/// single rules, ヴュ ヴャ ヴョ start with ビ (the small kana stays), and
/// ティ ディ become テイ デイ.
pub open spec fn loanword_spec(s: Seq<char>) -> Seq<char>
    decreases s.len(),
{
    if s.len() == 0 {
        seq![]
    } else {
        let c = s[0];
        let next = if s.len() > 1 {
            Some(s[1])
        } else {
            None
        };
        match pair_map(c, next) {
            Some(m) => (if c == 'ウ' {
                seq!['ウ', m]
            } else {
                seq![m]
            }) + loanword_spec(s.skip(2)),
            None => if c == 'ヴ' && (next == Some('ュ') || next == Some('ャ') || next == Some(
                'ョ',
            )) {
                seq!['ビ'] + loanword_spec(s.skip(1))
            } else if c == 'テ' && next == Some('ィ') {
                seq!['テ', 'イ'] + loanword_spec(s.skip(2))
            } else if c == 'デ' && next == Some('ィ') {
                seq!['デ', 'イ'] + loanword_spec(s.skip(2))
            } else {
                seq![single_map(c)] + loanword_spec(s.skip(1))
            },
        }
    }
}

/// Brings spelling variants of katakana loanwords to one form (see
/// [`loanword_spec`]). Hiragana and other characters are kept.
pub fn unify_loanword_kana(input: &str) -> (out: String)
    ensures
        out@ == loanword_spec(input@),
{
    let chars = chars_of(input);
    let ghost s = chars@;
    let mut out: Vec<char> = Vec::new();
    let mut i: usize = 0;
    proof {
        assert(s.skip(0) =~= s);
    }
    while i < chars.len()
        invariant
            i <= chars.len(),
            s == chars@,
            out@ + loanword_spec(s.skip(i as int)) == loanword_spec(s),
        decreases chars.len() - i,
    {
        let c = chars[i];
        let ghost rest = s.skip(i as int);
        let ghost before = out@;
        let next = if i + 1 < chars.len() {
            Some(chars[i + 1])
        } else {
            None
        };
        proof {
            assert(rest.skip(1) =~= s.skip(i + 1));
            if i + 1 < chars.len() {
                assert(rest.skip(2) =~= s.skip(i + 2));
            }
        }
        match pair_map_exec(c, next) {
            Some(m) => {
                if c == 'ウ' {
                    out.push('ウ');
                }
                out.push(m);
                proof {
                    assert(out@ + loanword_spec(s.skip(i + 2)) =~= before + ((if c == 'ウ' {
                        seq!['ウ', m]
                    } else {
                        seq![m]
                    }) + loanword_spec(s.skip(i + 2))));
                }
                i = i + 2;
            },
            None => {
                if c == 'ヴ' && (next == Some('ュ') || next == Some('ャ') || next == Some('ョ')) {
                    out.push('ビ');
                    proof {
                        assert(out@ + loanword_spec(s.skip(i + 1)) =~= before + (seq!['ビ']
                            + loanword_spec(s.skip(i + 1))));
                    }
                    i = i + 1;
                } else if (c == 'テ' || c == 'デ') && next == Some('ィ') {
                    out.push(c);
                    out.push('イ');
                    proof {
                        assert(out@ + loanword_spec(s.skip(i + 2)) =~= before + (seq![c, 'イ']
                            + loanword_spec(s.skip(i + 2))));
                    }
                    i = i + 2;
                } else {
                    let m = single_map_exec(c);
                    out.push(m);
                    proof {
                        assert(out@ + loanword_spec(s.skip(i + 1)) =~= before + (seq![m]
                            + loanword_spec(s.skip(i + 1))));
                    }
                    i = i + 1;
                }
            },
        }
    }
    proof {
        assert(s.skip(i as int) =~= Seq::<char>::empty());
        assert(out@ + Seq::<char>::empty() =~= out@);
    }
    string_of(&out)
}

/// Katakana for the long-vowel rule: U+30A1..U+30FA, ー, and the small
/// katakana extensions U+31F0..U+31FF.
pub open spec fn is_katakana_char(c: char) -> bool {
    let u = c as u32;
    (0x30A1 <= u && u <= 0x30FA) || u == 0x30FC || (0x31F0 <= u && u <= 0x31FF)
}

fn katakana_char(c: char) -> (b: bool)
    ensures
        b == is_katakana_char(c),
{
    let u = c as u32;
    (0x30A1 <= u && u <= 0x30FA) || u == 0x30FC || (0x31F0 <= u && u <= 0x31FF)
}

/// Where the katakana run continuing at `j` ends.
pub open spec fn kata_run_end(s: Seq<char>, j: int) -> int
    decreases s.len() - j,
{
    if 0 <= j < s.len() && is_katakana_char(s[j]) {
        kata_run_end(s, j + 1)
    } else {
        j
    }
}

pub proof fn lemma_kata_run_end_bounds(s: Seq<char>, j: int)
    requires
        0 <= j <= s.len(),
    ensures
        j <= kata_run_end(s, j) <= s.len(),
    decreases s.len() - j,
{
    if 0 <= j < s.len() && is_katakana_char(s[j]) {
        lemma_kata_run_end_bounds(s, j + 1);
    }
}

/// A katakana word with its final `ー` dropped when it has at least
/// `min_len` characters (and more than one).
pub open spec fn strip_word(run: Seq<char>, min_len: nat) -> Seq<char> {
    if run.len() >= min_len && run.len() > 1 && run.last() == 'ー' {
        run.drop_last()
    } else {
        run
    }
}

/// The long-vowel rule applied to `s` from index `i`, word by word.
pub open spec fn strip_from(s: Seq<char>, i: int, min_len: nat) -> Seq<char>
    decreases s.len() - i,
{
    if i < 0 || i >= s.len() {
        seq![]
    } else if !is_katakana_char(s[i]) {
        seq![s[i]] + strip_from(s, i + 1, min_len)
    } else {
        let end = kata_run_end(s, i + 1);
        proof {
            lemma_kata_run_end_bounds(s, i + 1);
        }
        strip_word(s.subrange(i, end), min_len) + strip_from(s, end, min_len)
    }
}

/// Drops the final long-vowel mark `ー` of each katakana word of at least
/// `min_len` characters: コンピューター → コンピュータ, サーバー → サーバ.
pub fn strip_trailing_prolonged(input: &str, min_len: usize) -> (out: String)
    ensures
        out@ == strip_from(input@, 0, min_len as nat),
{
    let chars = chars_of(input);
    let ghost s = chars@;
    let mut out: Vec<char> = Vec::new();
    let mut i: usize = 0;
    while i < chars.len()
        invariant
            i <= chars.len(),
            s == chars@,
            out@ + strip_from(s, i as int, min_len as nat) == strip_from(s, 0, min_len as nat),
        decreases chars.len() - i,
    {
        let ghost before = out@;
        if !katakana_char(chars[i]) {
            out.push(chars[i]);
            proof {
                assert(out@ + strip_from(s, i + 1, min_len as nat) =~= before + (seq![s[i as int]]
                    + strip_from(s, i + 1, min_len as nat)));
            }
            i = i + 1;
            continue;
        }
        let start = i;
        i = i + 1;
        while i < chars.len() && katakana_char(chars[i])
            invariant
                start < i <= chars.len(),
                s == chars@,
                kata_run_end(s, i as int) == kata_run_end(s, start + 1),
            decreases chars.len() - i,
        {
            i = i + 1;
        }
        assert(kata_run_end(s, i as int) == i);
        let len: usize = i - start;
        let strip = len >= min_len && len > 1 && chars[i - 1] == 'ー';
        let end = if strip {
            i - 1
        } else {
            i
        };
        push_all(&mut out, &chars.as_slice()[start..end]);
        proof {
            let run = s.subrange(start as int, i as int);
            assert(chars@.subrange(start as int, end as int) =~= strip_word(run, min_len as nat));
            assert(out@ + strip_from(s, i as int, min_len as nat) =~= before + (strip_word(
                run,
                min_len as nat,
            ) + strip_from(s, i as int, min_len as nat)));
        }
    }
    proof {
        assert(out@ + Seq::<char>::empty() =~= out@);
    }
    string_of(&out)
}

} // verus!
