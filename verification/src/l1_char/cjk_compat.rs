//! Expands platform-dependent characters and CJK compatibility characters.
//!
//! For example `㈱` → `(株)`, `①` → `1`, `髙` → `高`, `㌔` → `キロ`.
//! NFKC covers part of this, but the expansion is offered on its own for
//! configurations that do not apply NFKC.
use vstd::prelude::*;
use crate::text::{chars_of, string_of, push_all};

verus! {

/// What `c` expands to (`c` alone when it is not in the table).
pub open spec fn expand_char(c: char) -> Seq<char> {
    match c {
        '㈱' => seq!['(', '株', ')'],
        '㈲' => seq!['(', '有', ')'],
        '㈳' => seq!['(', '社', ')'],
        '㈶' => seq!['(', '財', ')'],
        '㈵' => seq!['(', '特', ')'],
        '㈹' => seq!['(', '代', ')'],
        '㈻' => seq!['(', '学', ')'],
        '①' => seq!['1'],
        '②' => seq!['2'],
        '③' => seq!['3'],
        '④' => seq!['4'],
        '⑤' => seq!['5'],
        '⑥' => seq!['6'],
        '⑦' => seq!['7'],
        '⑧' => seq!['8'],
        '⑨' => seq!['9'],
        '⑩' => seq!['1', '0'],
        '⑪' => seq!['1', '1'],
        '⑫' => seq!['1', '2'],
        '⑬' => seq!['1', '3'],
        '⑭' => seq!['1', '4'],
        '⑮' => seq!['1', '5'],
        '⑯' => seq!['1', '6'],
        '⑰' => seq!['1', '7'],
        '⑱' => seq!['1', '8'],
        '⑲' => seq!['1', '9'],
        '⑳' => seq!['2', '0'],
        '髙' => seq!['高'],
        '﨑' => seq!['崎'],
        '德' => seq!['徳'],
        '濵' => seq!['浜'],
        '龍' => seq!['竜'],
        '邊' => seq!['辺'],
        '邉' => seq!['辺'],
        '澤' => seq!['沢'],
        '齋' => seq!['斎'],
        '齊' => seq!['斉'],
        '㌔' => seq!['キ', 'ロ'],
        '㍍' => seq!['メ', 'ー', 'ト', 'ル'],
        '㌘' => seq!['グ', 'ラ', 'ム'],
        '㌢' => seq!['セ', 'ン', 'チ'],
        '㍉' => seq!['ミ', 'リ'],
        '㍑' => seq!['リ', 'ッ', 'ト', 'ル'],
        '㌫' => seq!['パ', 'ー', 'セ', 'ン', 'ト'],
        _ => seq![c],
    }
}

fn expansion(c: char) -> (r: Vec<char>)
    ensures
        r@ == expand_char(c),
{
    match c {
        '㈱' => vec!['(', '株', ')'],
        '㈲' => vec!['(', '有', ')'],
        '㈳' => vec!['(', '社', ')'],
        '㈶' => vec!['(', '財', ')'],
        '㈵' => vec!['(', '特', ')'],
        '㈹' => vec!['(', '代', ')'],
        '㈻' => vec!['(', '学', ')'],
        '①' => vec!['1'],
        '②' => vec!['2'],
        '③' => vec!['3'],
        '④' => vec!['4'],
        '⑤' => vec!['5'],
        '⑥' => vec!['6'],
        '⑦' => vec!['7'],
        '⑧' => vec!['8'],
        '⑨' => vec!['9'],
        '⑩' => vec!['1', '0'],
        '⑪' => vec!['1', '1'],
        '⑫' => vec!['1', '2'],
        '⑬' => vec!['1', '3'],
        '⑭' => vec!['1', '4'],
        '⑮' => vec!['1', '5'],
        '⑯' => vec!['1', '6'],
        '⑰' => vec!['1', '7'],
        '⑱' => vec!['1', '8'],
        '⑲' => vec!['1', '9'],
        '⑳' => vec!['2', '0'],
        '髙' => vec!['高'],
        '﨑' => vec!['崎'],
        '德' => vec!['徳'],
        '濵' => vec!['浜'],
        '龍' => vec!['竜'],
        '邊' => vec!['辺'],
        '邉' => vec!['辺'],
        '澤' => vec!['沢'],
        '齋' => vec!['斎'],
        '齊' => vec!['斉'],
        '㌔' => vec!['キ', 'ロ'],
        '㍍' => vec!['メ', 'ー', 'ト', 'ル'],
        '㌘' => vec!['グ', 'ラ', 'ム'],
        '㌢' => vec!['セ', 'ン', 'チ'],
        '㍉' => vec!['ミ', 'リ'],
        '㍑' => vec!['リ', 'ッ', 'ト', 'ル'],
        '㌫' => vec!['パ', 'ー', 'セ', 'ン', 'ト'],
        _ => vec![c],
    }
}

/// Expands the common platform-dependent characters (see [`expand_char`]).
pub fn expand(input: &str) -> (out: String)
    ensures
        out@ == input@.flat_map(|c: char| expand_char(c)),
{
    let chars = chars_of(input);
    let ghost s = chars@;
    let mut out: Vec<char> = Vec::new();
    let mut i: usize = 0;
    proof {
        assert(s.take(0) =~= Seq::<char>::empty());
        assert(Seq::<char>::empty().flat_map(|c: char| expand_char(c)) =~= Seq::<char>::empty());
    }
    while i < chars.len()
        invariant
            i <= chars.len(),
            s == chars@,
            out@ == s.take(i as int).flat_map(|c: char| expand_char(c)),
        decreases chars.len() - i,
    {
        let c = chars[i];
        let e = expansion(c);
        push_all(&mut out, e.as_slice());
        proof {
            assert(s.take(i + 1) =~= s.take(i as int).push(c));
            s.take(i as int).lemma_flat_map_push(|c: char| expand_char(c), c);
        }
        i = i + 1;
    }
    proof {
        assert(s.take(i as int) =~= s);
    }
    string_of(&out)
}

} // verus!
