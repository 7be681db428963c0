//! A reader of Sudachi's synonym dictionary `synonyms.txt`.
//!
//! The format (comma-separated, UTF-8):
//!
//! | column | content |
//! |--------|---------|
//! | 0      | group ID (6 digits) |
//! | 1      | noun / verb flag |
//! | 2      | expansion flag |
//! | 3      | lexeme number in the group |
//! | 4      | form type (0 = representative, 1 = translation, 2 = alias, 3 = old name, 4 = misuse) |
//! | 5      | abbreviation |
//! | 6      | spelling variant (0 = representative spelling) |
//! | 7      | field |
//! | 8      | headword |
//!
//! In a group, the row with column 4 = 0 and column 6 = 0 gives the
//! representative spelling, and the group's other headwords map to it. A
//! group without one takes its first headword as the representative.
//!
//! Blank rows and rows starting with `#` are skipped.
use vstd::prelude::*;
use crate::l2_script::numerals::{decimal, decimal_value, push_decimal};
use crate::l3_lexical::synonym::{SynonymDict, insert_spec, index_of_key, lemma_index_of_key};
use crate::text::{chars_of, find_char, find_char_spec, is_ascii_digit, lines_of, lines_spec, push_str, split_char, split_spec, str_eq, string_of, trim_spec, trim_str};

verus! {

/// An error while reading `synonyms.txt`.
#[derive(Debug)]
pub enum SudachiParseError {
    /// A row with too few columns.
    TooFewColumns {
        /// The line number, from 1.
        line: usize,
    },
}

impl SudachiParseError {
    /// The error message: `sudachi synonyms: too few columns at line N`.
    pub fn to_string(&self) -> (r: String)
        ensures
            match self {
                SudachiParseError::TooFewColumns { line } => r@
                    == "sudachi synonyms: too few columns at line "@ + decimal(*line as nat),
            },
    {
        let mut out: Vec<char> = Vec::new();
        match self {
            SudachiParseError::TooFewColumns { line } => {
                push_str(&mut out, "sudachi synonyms: too few columns at line ");
                push_decimal(&mut out, *line as u128);
            },
        }
        string_of(&out)
    }
}

/// Whether all of `s` are ASCII digits.
pub open spec fn all_digits(s: Seq<char>) -> bool {
    forall|k: int| 0 <= k < s.len() ==> is_ascii_digit(#[trigger] s[k])
}

/// `s` read as a `u8` (as `str::parse::<u8>`): an optional `+` and at least
/// one ASCII digit, with a value of at most 255.
pub open spec fn parse_u8_spec(s: Seq<char>) -> Option<int> {
    let d = if s.len() > 0 && s[0] == '+' {
        s.drop_first()
    } else {
        s
    };
    if d.len() == 0 || !all_digits(d) {
        None
    } else if decimal_value(d) <= 255 {
        Some(decimal_value(d))
    } else {
        None
    }
}

/// Whether a column reads as 0, a column that is no `u8` counting as 0.
pub open spec fn zero_or_unreadable(s: Seq<char>) -> bool {
    match parse_u8_spec(s) {
        Some(v) => v == 0,
        None => true,
    }
}

/// Reads `s` as a `u8` (see [`parse_u8_spec`]).
fn parse_u8(s: &str) -> (r: Option<u8>)
    ensures
        match r {
            Some(v) => parse_u8_spec(s@) == Some(v as int),
            None => parse_u8_spec(s@) is None,
        },
{
    let chars = chars_of(s);
    let n = chars.len();
    let start: usize = if n > 0 && chars[0] == '+' {
        1
    } else {
        0
    };
    let ghost d = if s@.len() > 0 && s@[0] == '+' {
        s@.drop_first()
    } else {
        s@
    };
    assert(d =~= s@.subrange(start as int, n as int));
    if start == n {
        return None;
    }
    let mut v: u32 = 0;
    let mut k: usize = start;
    while k < n
        invariant
            start <= k <= n,
            n == chars@.len(),
            chars@ == s@,
            d == s@.subrange(start as int, n as int),
            d == (if s@.len() > 0 && s@[0] == '+' {
                s@.drop_first()
            } else {
                s@
            }),
            forall|x: int| start <= x < k ==> is_ascii_digit(#[trigger] s@[x]),
            decimal_value(s@.subrange(start as int, k as int)) <= 255 ==> v == decimal_value(
                s@.subrange(start as int, k as int),
            ),
            decimal_value(s@.subrange(start as int, k as int)) > 255 ==> 255 < v <= 2559,
        decreases n - k,
    {
        let c = chars[k];
        if !('0' <= c && c <= '9') {
            proof {
                assert(d[k - start] == s@[k as int]);
                assert(!is_ascii_digit(d[k - start]));
                assert(!all_digits(d));
            }
            return None;
        }
        proof {
            assert(s@.subrange(start as int, k + 1).drop_last() =~= s@.subrange(
                start as int,
                k as int,
            ));
        }
        if v <= 255 {
            v = v * 10 + ((c as u32) - ('0' as u32));
        }
        k = k + 1;
    }
    proof {
        assert(forall|x: int| 0 <= x < d.len() ==> #[trigger] d[x] == s@[start + x]);
        assert(all_digits(d));
    }
    if v <= 255 {
        Some(v as u8)
    } else {
        None
    }
}

/// Tests [`zero_or_unreadable`].
fn zero_or_unparsed(s: &str) -> (b: bool)
    ensures
        b == zero_or_unreadable(s@),
{
    match parse_u8(s) {
        Some(v) => v == 0,
        None => true,
    }
}

/// A headword without surrounding `(...)` or `（...）` (after trimming).
pub open spec fn strip_brackets_spec(s: Seq<char>) -> Seq<char> {
    let t = trim_spec(s);
    if t.len() >= 2 && ((t[0] == '(' && t.last() == ')') || (t[0] == '（' && t.last() == '）')) {
        t.subrange(1, t.len() - 1)
    } else {
        t
    }
}

fn strip_brackets(s: &str) -> (r: &str)
    ensures
        r@ == strip_brackets_spec(s@),
{
    let t = trim_str(s);
    let n = t.unicode_len();
    if n >= 2 {
        let first = t.get_char(0);
        let last = t.get_char(n - 1);
        if (first == '(' && last == ')') || (first == '（' && last == '）') {
            return t.substring_char(1, n - 1);
        }
    }
    t
}

/// A group of synonyms: its ID, its representative if a row gave one, and
/// its headwords in order.
pub type GroupView = (Seq<char>, Option<Seq<char>>, Seq<Seq<char>>);

/// The index of the group with ID `id`, if any.
pub open spec fn group_index(gs: Seq<GroupView>, id: Seq<char>) -> Option<int>
    decreases gs.len(),
{
    if gs.len() == 0 {
        None
    } else if gs.last().0 == id {
        Some(gs.len() - 1)
    } else {
        group_index(gs.drop_last(), id)
    }
}

pub proof fn lemma_group_index(gs: Seq<GroupView>, id: Seq<char>)
    ensures
        group_index(gs, id) matches Some(i) ==> 0 <= i < gs.len() && gs[i].0 == id,
        group_index(gs, id) is None ==> forall|i: int| 0 <= i < gs.len() ==> #[trigger] gs[i].0 != id,
    decreases gs.len(),
{
    if gs.len() > 0 {
        lemma_group_index(gs.drop_last(), id);
        assert forall|i: int| 0 <= i < gs.len() - 1 implies #[trigger] gs[i] == gs.drop_last()[i] by {}
    }
}

/// The groups after the headword `h` of group `id` (`rep`: the row gives the
/// representative spelling): a new group is added at the end; the first
/// representative row of a group sets its representative.
pub open spec fn add_headword(gs: Seq<GroupView>, id: Seq<char>, h: Seq<char>, rep: bool) -> Seq<
    GroupView,
> {
    match group_index(gs, id) {
        Some(i) => gs.update(
            i,
            (
                id,
                if rep && gs[i].1 is None {
                    Some(h)
                } else {
                    gs[i].1
                },
                gs[i].2.push(h),
            ),
        ),
        None => gs.push(
            (
                id,
                if rep {
                    Some(h)
                } else {
                    None
                },
                seq![h],
            ),
        ),
    }
}

/// What a row gives: `None` for a row with too few columns and no comma,
/// `Some(None)` for a row that is skipped (blank, comment, too few columns
/// with a comma, empty group ID or headword), `Some(Some((id, h, rep)))` for
/// the headword `h` of group `id`.
pub open spec fn sudachi_row(line: Seq<char>) -> Option<Option<(Seq<char>, Seq<char>, bool)>> {
    let t = trim_spec(line);
    if t.len() == 0 || t[0] == '#' {
        Some(None)
    } else {
        let cols = split_spec(t, ',');
        if cols.len() < 9 {
            if find_char_spec(t, ',') is Some {
                Some(None)
            } else {
                None
            }
        } else {
            let gid = trim_spec(cols[0]);
            let head = trim_spec(cols[8]);
            if head.len() == 0 || gid.len() == 0 {
                Some(None)
            } else {
                let h = strip_brackets_spec(head);
                if h.len() == 0 {
                    Some(None)
                } else {
                    Some(
                        Some(
                            (
                                gid,
                                h,
                                zero_or_unreadable(trim_spec(cols[4])) && zero_or_unreadable(
                                    trim_spec(cols[6]),
                                ),
                            ),
                        ),
                    )
                }
            }
        }
    }
}

/// The groups of the rows `lines[j..]` added to `gs`, or the number (from 1)
/// of the first row in error.
pub open spec fn groups_from(lines: Seq<Seq<char>>, j: int, gs: Seq<GroupView>) -> Result<
    Seq<GroupView>,
    int,
>
    decreases lines.len() - j,
{
    if j < 0 || j >= lines.len() {
        Ok(gs)
    } else {
        match sudachi_row(lines[j]) {
            None => Err(j + 1),
            Some(None) => groups_from(lines, j + 1, gs),
            Some(Some((id, h, rep))) => groups_from(lines, j + 1, add_headword(gs, id, h, rep)),
        }
    }
}

/// The entries after mapping the headwords `hs[k..]` to `canonical` (the
/// canonical form itself is skipped).
pub open spec fn group_entries(
    hs: Seq<Seq<char>>,
    canonical: Seq<char>,
    k: int,
    es: Seq<(Seq<char>, Seq<char>)>,
) -> Seq<(Seq<char>, Seq<char>)>
    decreases hs.len() - k,
{
    if k < 0 || k >= hs.len() {
        es
    } else {
        group_entries(
            hs,
            canonical,
            k + 1,
            if hs[k] == canonical {
                es
            } else {
                insert_spec(es, hs[k], canonical)
            },
        )
    }
}

/// The representative of a group: the one a row gave, else its first
/// headword.
pub open spec fn representative(g: GroupView) -> Option<Seq<char>> {
    match g.1 {
        Some(c) => Some(c),
        None => if g.2.len() > 0 {
            Some(g.2[0])
        } else {
            None
        },
    }
}

/// The entries of the groups `gs[g..]` added to `es`, group by group.
pub open spec fn groups_entries(gs: Seq<GroupView>, g: int, es: Seq<(Seq<char>, Seq<char>)>) -> Seq<
    (Seq<char>, Seq<char>),
>
    decreases gs.len() - g,
{
    if g < 0 || g >= gs.len() {
        es
    } else {
        match representative(gs[g]) {
            Some(c) => groups_entries(gs, g + 1, group_entries(gs[g].2, c, 0, es)),
            None => groups_entries(gs, g + 1, es),
        }
    }
}

/// The entries read from a `synonyms.txt` text, or the number of the row in
/// error. Groups are taken in the order they first appear.
pub open spec fn sudachi_spec(s: Seq<char>) -> Result<Seq<(Seq<char>, Seq<char>)>, int> {
    match groups_from(lines_spec(s), 0, seq![]) {
        Err(n) => Err(n),
        Ok(gs) => Ok(groups_entries(gs, 0, seq![])),
    }
}

/// The views of the groups being read.
pub open spec fn groups_view(v: Seq<(String, Option<String>, Vec<String>)>) -> Seq<GroupView> {
    v.map_values(
        |g: (String, Option<String>, Vec<String>)|
            (
                g.0@,
                match g.1 {
                    Some(c) => Some(c@),
                    None => None,
                },
                g.2@.map_values(|h: String| h@),
            ),
    )
}

/// Adds the headword `h` of group `id` (see [`add_headword`]).
fn add_headword_to(
    groups: &mut Vec<(String, Option<String>, Vec<String>)>,
    id: &str,
    h: &str,
    rep: bool,
)
    ensures
        groups_view(final(groups)@) == add_headword(groups_view(old(groups)@), id@, h@, rep),
{
    let ghost gs = groups_view(groups@);
    let key: String = id.to_owned();
    let mut i: usize = groups.len();
    assert(gs.take(i as int) =~= gs);
    while i > 0
        invariant
            i <= groups@.len(),
            gs == groups_view(groups@),
            key@ == id@,
            group_index(gs, id@) == group_index(gs.take(i as int), id@),
        ensures
            i > 0 ==> group_index(gs, id@) == Some(i - 1),
            i == 0 ==> group_index(gs, id@) is None,
        decreases i,
    {
        proof {
            assert(gs.take(i as int).drop_last() =~= gs.take(i - 1));
        }
        if groups[i - 1].0 == key {
            assert(gs.take(i as int).last() == gs[i - 1]);
            break;
        }
        i = i - 1;
    }
    proof {
        lemma_group_index(gs, id@);
    }
    if i == 0 {
        let mut hs: Vec<String> = Vec::new();
        hs.push(h.to_owned());
        assert(hs@.map_values(|x: String| x@) =~= seq![h@]);
        let canonical = if rep {
            Some(h.to_owned())
        } else {
            None
        };
        let ghost before = groups@;
        let entry = (id.to_owned(), canonical, hs);
        groups.push(entry);
        proof {
            assert(groups@ == before.push(entry));
            assert(groups_view(groups@) =~= groups_view(before).push(
                (id@, if rep { Some(h@) } else { None }, seq![h@]),
            ));
            assert(groups_view(groups@) =~= add_headword(gs, id@, h@, rep));
        }
    } else {
        let k = i - 1;
        assert(group_index(gs, id@) == Some(k as int));
        let mut g: (String, Option<String>, Vec<String>) = (String::new(), None, Vec::new());
        groups.set_and_swap(k, &mut g);
        let ghost old_hs = g.2@;
        if rep && g.1.is_none() {
            g.1 = Some(h.to_owned());
        }
        g.2.push(h.to_owned());
        proof {
            assert(g.2@.map_values(|x: String| x@) =~= old_hs.map_values(|x: String| x@).push(
                h@,
            ));
        }
        groups.set(k, g);
        proof {
            assert(groups_view(groups@) =~= add_headword(gs, id@, h@, rep));
        }
    }
}

/// Reads the contents of `synonyms.txt` into a synonym dictionary (see
/// [`sudachi_spec`]).
///
/// A representative written in brackets (`(見出し)`) is taken without them.
/// A row with too few columns is skipped if it holds a comma; one without
/// any comma is an error.
pub fn load_sudachi_synonyms(text: &str) -> (r: Result<SynonymDict, SudachiParseError>)
    ensures
        match r {
            Ok(d) => sudachi_spec(text@) == Ok::<Seq<(Seq<char>, Seq<char>)>, int>(
                d.entries_view(),
            ),
            Err(e) => sudachi_spec(text@) matches Err(n) && e matches SudachiParseError::TooFewColumns {
                line,
            } && line == n,
        },
{
    let lines = lines_of(text);
    let ghost ls = lines_spec(text@);
    let mut groups: Vec<(String, Option<String>, Vec<String>)> = Vec::new();
    proof {
        assert(groups_view(groups@) =~= seq![]);
    }
    let mut j: usize = 0;
    while j < lines.len()
        invariant
            j <= lines@.len(),
            ls == lines_spec(text@),
            lines@.len() == ls.len(),
            forall|k: int| 0 <= k < lines@.len() ==> (#[trigger] lines@[k])@ == ls[k],
            groups_from(ls, j as int, groups_view(groups@)) == groups_from(ls, 0, seq![]),
        decreases lines@.len() - j,
    {
        let t = trim_str(lines[j]);
        assert(t@ == trim_spec(ls[j as int]));
        if t.is_empty() || t.get_char(0) == '#' {
            j = j + 1;
            continue;
        }
        let cols = split_char(t, ',');
        if cols.len() < 9 {
            if find_char(t, ',').is_some() {
                j = j + 1;
                continue;
            }
            return Err(SudachiParseError::TooFewColumns { line: j + 1 });
        }
        let gid = trim_str(cols[0]);
        let head = trim_str(cols[8]);
        if head.is_empty() || gid.is_empty() {
            j = j + 1;
            continue;
        }
        let h = strip_brackets(head);
        if h.is_empty() {
            j = j + 1;
            continue;
        }
        let rep = zero_or_unparsed(trim_str(cols[4])) && zero_or_unparsed(trim_str(cols[6]));
        add_headword_to(&mut groups, gid, h, rep);
        j = j + 1;
    }
    let ghost gs = groups_view(groups@);
    let mut dict = SynonymDict::new();
    proof {
        assert(dict.entries_view() =~= seq![]);
    }
    let mut g: usize = 0;
    while g < groups.len()
        invariant
            g <= groups@.len(),
            gs == groups_view(groups@),
            sudachi_spec(text@) == Ok::<Seq<(Seq<char>, Seq<char>)>, int>(
                groups_entries(gs, g as int, dict.entries_view()),
            ),
        decreases groups@.len() - g,
    {
        let canonical: Option<&str> = match &groups[g].1 {
            Some(c) => Some(c.as_str()),
            None => if groups[g].2.len() > 0 {
                Some(groups[g].2[0].as_str())
            } else {
                None
            },
        };
        match canonical {
            None => {},
            Some(c) => {
                let ghost hs = gs[g as int].2;
                let ghost start = dict.entries_view();
                let mut k: usize = 0;
                while k < groups[g].2.len()
                    invariant
                        k <= groups@[g as int].2@.len(),
                        g < groups@.len(),
                        gs == groups_view(groups@),
                        hs == gs[g as int].2,
                        representative(gs[g as int]) == Some(c@),
                        group_entries(hs, c@, k as int, dict.entries_view()) == group_entries(
                            hs,
                            c@,
                            0,
                            start,
                        ),
                    decreases groups@[g as int].2@.len() - k,
                {
                    let h = groups[g].2[k].as_str();
                    assert(h@ == hs[k as int]);
                    if !str_eq(h, c) {
                        dict.insert(h, c);
                    }
                    k = k + 1;
                }
            },
        }
        g = g + 1;
    }
    Ok(dict)
}


// ---- which row gives a group's representative ----

/// The group a row adds a headword to, if it adds one.
pub open spec fn row_group(line: Seq<char>) -> Option<Seq<char>> {
    match sudachi_row(line) {
        Some(Some((id, _h, _rep))) => Some(id),
        _ => None,
    }
}

/// Whether a row is marked as giving the representative spelling of group
/// `id` (columns 4 and 6 zero).
pub open spec fn rep_row(line: Seq<char>, id: Seq<char>) -> bool {
    match sudachi_row(line) {
        Some(Some((i2, _h, rep))) => i2 == id && rep,
        _ => false,
    }
}

/// Row `j` is the first of `ls` marked as giving the representative of
/// group `id`, and its headword is `c`.
pub open spec fn first_rep_row(ls: Seq<Seq<char>>, j: int, id: Seq<char>, c: Seq<char>) -> bool {
    &&& 0 <= j < ls.len()
    &&& sudachi_row(ls[j]) == Some(Some((id, c, true)))
    &&& forall|j2: int| 0 <= j2 < j ==> !rep_row(#[trigger] ls[j2], id)
}

/// What group `grp` read from the rows `ls[..n]` says of those rows: its
/// representative comes from the first representative row of the group,
/// and a group without one has no such row.
spec fn group_ok(ls: Seq<Seq<char>>, n: int, grp: GroupView) -> bool {
    match grp.1 {
        Some(c) => exists|j: int| j < n && first_rep_row(ls, j, grp.0, c),
        None => forall|j: int| 0 <= j < n ==> !rep_row(#[trigger] ls[j], grp.0),
    }
}

/// What the groups `g` read from the rows `ls[..n]` say of those rows.
spec fn reps_inv(ls: Seq<Seq<char>>, n: int, g: Seq<GroupView>) -> bool {
    &&& 0 <= n <= ls.len()
    &&& forall|gi: int| 0 <= gi < g.len() ==> group_ok(ls, n, #[trigger] g[gi])
    &&& forall|j: int|
        0 <= j < n ==> (#[trigger] row_group(ls[j]) matches Some(id) ==> exists|gi: int|
            0 <= gi < g.len() && (#[trigger] g[gi]).0 == id)
    &&& forall|a: int, b: int| 0 <= a < g.len() && 0 <= b < g.len() && a != b ==> (#[trigger] g[a]).0
        != (#[trigger] g[b]).0
}

/// A group that row `n` does not mark as representative stays as it was.
proof fn lemma_group_ok_keep(ls: Seq<Seq<char>>, n: int, grp: GroupView)
    requires
        0 <= n < ls.len(),
        group_ok(ls, n, grp),
        !rep_row(ls[n], grp.0),
    ensures
        group_ok(ls, n + 1, grp),
{
    match grp.1 {
        Some(c) => {
            let w = choose|j: int| j < n && first_rep_row(ls, j, grp.0, c);
            assert(w < n + 1 && first_rep_row(ls, w, grp.0, c));
        },
        None => {
            assert forall|j: int| 0 <= j < n + 1 implies !rep_row(#[trigger] ls[j], grp.0) by {
                if j < n {
                    assert(!rep_row(ls[j], grp.0));
                }
            }
        },
    }
}

/// The group `id` after row `n` adds its headword `h` (`rep`: marked as
/// representative), from `old` (that group before, or `None` for a new one:
/// no earlier row is of that group).
proof fn lemma_group_ok_add(
    ls: Seq<Seq<char>>,
    n: int,
    id: Seq<char>,
    h: Seq<char>,
    rep: bool,
    before: Option<Seq<char>>,
    hs: Seq<Seq<char>>,
)
    requires
        0 <= n < ls.len(),
        sudachi_row(ls[n]) == Some(Some((id, h, rep))),
        group_ok(ls, n, (id, before, hs)),
    ensures
        group_ok(
            ls,
            n + 1,
            (
                id,
                if rep && before is None {
                    Some(h)
                } else {
                    before
                },
                hs.push(h),
            ),
        ),
{
    assert(rep_row(ls[n], id) == rep);
    match before {
        Some(c) => {
            assert(group_ok(ls, n, (id, before, hs)));
            let w = choose|j: int| j < n && first_rep_row(ls, j, id, c);
            assert(w < n + 1 && first_rep_row(ls, w, id, c));
            let grp = (id, before, hs.push(h));
            assert(grp.0 == id && grp.1 == Some(c));
            assert(group_ok(ls, n + 1, grp));
            assert((
                id,
                if rep && before is None {
                    Some(h)
                } else {
                    before
                },
                hs.push(h),
            ) == grp);
        },
        None => {
            if rep {
                let grp = (id, Some(h), hs.push(h));
                assert(grp.0 == id);
                assert(first_rep_row(ls, n, grp.0, h));
                assert(grp.1 == Some(h));
                assert(first_rep_row(ls, n, grp.0, grp.1->0));
                assert(group_ok(ls, n + 1, grp));
            } else {
                assert forall|j: int| 0 <= j < n + 1 implies !rep_row(#[trigger] ls[j], id) by {
                    if j < n {
                        assert(!rep_row(ls[j], id));
                    }
                }
                assert(group_ok(ls, n + 1, (id, None, hs.push(h))));
            }
        },
    }
}

proof fn lemma_reps_step(ls: Seq<Seq<char>>, n: int, g: Seq<GroupView>)
    requires
        reps_inv(ls, n, g),
        n < ls.len(),
        sudachi_row(ls[n]) is Some,
    ensures
        match sudachi_row(ls[n]) {
            Some(Some((id, h, rep))) => reps_inv(ls, n + 1, add_headword(g, id, h, rep)),
            _ => reps_inv(ls, n + 1, g),
        },
{
    match sudachi_row(ls[n]) {
        Some(Some((id, h, rep))) => {
            let g2 = add_headword(g, id, h, rep);
            lemma_group_index(g, id);
            assert(row_group(ls[n]) == Some(id));
            assert forall|x: Seq<char>| x != id implies !rep_row(ls[n], x) by {}
            match group_index(g, id) {
                Some(i) => {
                    assert(g2.len() == g.len());
                    assert forall|gi: int| 0 <= gi < g2.len() implies group_ok(ls, n + 1, #[trigger] g2[gi]) by {
                        assert(group_ok(ls, n, g[gi]));
                        if gi == i {
                            lemma_group_ok_add(ls, n, id, h, rep, g[i].1, g[i].2);
                        } else {
                            assert(g2[gi] == g[gi]);
                            lemma_group_ok_keep(ls, n, g[gi]);
                        }
                    }
                    assert forall|j: int| 0 <= j < n + 1 implies (#[trigger] row_group(ls[j]) matches Some(x) ==> exists|gi: int|
                        0 <= gi < g2.len() && (#[trigger] g2[gi]).0 == x) by {
                        if j < n {
                            if let Some(x) = row_group(ls[j]) {
                                let w = choose|gi: int| 0 <= gi < g.len() && (#[trigger] g[gi]).0 == x;
                                assert(g2[w].0 == x);
                            }
                        } else {
                            assert(g2[i].0 == id);
                        }
                    }
                    assert forall|a: int, b: int| 0 <= a < g2.len() && 0 <= b < g2.len() && a != b implies (#[trigger] g2[a]).0
                        != (#[trigger] g2[b]).0 by {
                        assert(g2[a].0 == g[a].0);
                        assert(g2[b].0 == g[b].0);
                    }
                },
                None => {
                    assert(g2.len() == g.len() + 1);
                    assert forall|gi: int| 0 <= gi < g2.len() implies group_ok(ls, n + 1, #[trigger] g2[gi]) by {
                        if gi == g.len() {
                            let e: Seq<Seq<char>> = seq![];
                            assert forall|j: int| 0 <= j < n implies !rep_row(#[trigger] ls[j], id) by {
                                if rep_row(ls[j], id) {
                                    assert(row_group(ls[j]) == Some(id));
                                    let w = choose|gi: int| 0 <= gi < g.len() && (#[trigger] g[gi]).0 == id;
                                    assert(g[w].0 != id);
                                }
                            }
                            assert(group_ok(ls, n, (id, None, e)));
                            lemma_group_ok_add(ls, n, id, h, rep, None, e);
                            assert(e.push(h) =~= seq![h]);
                        } else {
                            assert(g2[gi] == g[gi]);
                            assert(group_ok(ls, n, g[gi]));
                            lemma_group_ok_keep(ls, n, g[gi]);
                        }
                    }
                    assert forall|j: int| 0 <= j < n + 1 implies (#[trigger] row_group(ls[j]) matches Some(x) ==> exists|gi: int|
                        0 <= gi < g2.len() && (#[trigger] g2[gi]).0 == x) by {
                        if j < n {
                            if let Some(x) = row_group(ls[j]) {
                                let w = choose|gi: int| 0 <= gi < g.len() && (#[trigger] g[gi]).0 == x;
                                assert(g2[w].0 == x);
                            }
                        } else {
                            assert(g2[g.len() as int].0 == id);
                        }
                    }
                    assert forall|a: int, b: int| 0 <= a < g2.len() && 0 <= b < g2.len() && a != b implies (#[trigger] g2[a]).0
                        != (#[trigger] g2[b]).0 by {
                        if a < g.len() && b < g.len() {
                            assert(g2[a].0 == g[a].0);
                            assert(g2[b].0 == g[b].0);
                        } else if a < g.len() {
                            assert(g2[a].0 == g[a].0);
                        } else if b < g.len() {
                            assert(g2[b].0 == g[b].0);
                        }
                    }
                },
            }
        },
        _ => {
            assert(row_group(ls[n]) is None);
            assert forall|gi: int| 0 <= gi < g.len() implies group_ok(ls, n + 1, #[trigger] g[gi]) by {
                assert(group_ok(ls, n, g[gi]));
                assert(!rep_row(ls[n], g[gi].0));
                lemma_group_ok_keep(ls, n, g[gi]);
            }
        },
    }
}

proof fn lemma_reps_from(ls: Seq<Seq<char>>, n: int, g: Seq<GroupView>)
    requires
        reps_inv(ls, n, g),
    ensures
        groups_from(ls, n, g) matches Ok(gs) ==> reps_inv(ls, ls.len() as int, gs),
    decreases ls.len() - n,
{
    if n < ls.len() {
        match sudachi_row(ls[n]) {
            None => {},
            Some(None) => {
                lemma_reps_step(ls, n, g);
                lemma_reps_from(ls, n + 1, g);
            },
            Some(Some((id, h, rep))) => {
                lemma_reps_step(ls, n, g);
                lemma_reps_from(ls, n + 1, add_headword(g, id, h, rep));
            },
        }
    }
}

/// The first representative row of a group wins: when `synonyms.txt` reads
/// without error, a group's representative is the headword of the first row
/// of that group marked as representative (columns 4 and 6 zero), in file
/// order, however many such rows follow; a group without such a row has
/// none (its first headword then stands for it).
pub proof fn lemma_first_representative(text: Seq<char>)
    ensures
        groups_from(lines_spec(text), 0, seq![]) matches Ok(gs) ==> forall|gi: int|
            0 <= gi < gs.len() ==> match (#[trigger] gs[gi]).1 {
                Some(c) => exists|j: int| first_rep_row(lines_spec(text), j, gs[gi].0, c),
                None => forall|j: int|
                    0 <= j < lines_spec(text).len() ==> !rep_row(#[trigger] lines_spec(text)[j], gs[gi].0),
            },
{
    let ls = lines_spec(text);
    let e: Seq<GroupView> = seq![];
    assert(reps_inv(ls, 0, e));
    lemma_reps_from(ls, 0, e);
    if let Ok(gs) = groups_from(ls, 0, e) {
        assert forall|gi: int| 0 <= gi < gs.len() implies match (#[trigger] gs[gi]).1 {
            Some(c) => exists|j: int| first_rep_row(ls, j, gs[gi].0, c),
            None => forall|j: int| 0 <= j < ls.len() ==> !rep_row(#[trigger] ls[j], gs[gi].0),
        } by {
            assert(group_ok(ls, ls.len() as int, gs[gi]));
            if let Some(c) = gs[gi].1 {
                let w = choose|j: int| j < ls.len() && first_rep_row(ls, j, gs[gi].0, c);
                assert(first_rep_row(ls, w, gs[gi].0, c));
            }
        }
    }
}


// ---- where each entry comes from ----

/// The entry `e` maps a headword of one of the groups `gs` other than that
/// group's representative to that representative.
pub open spec fn from_some_group(gs: Seq<GroupView>, e: (Seq<char>, Seq<char>)) -> bool {
    exists|gi: int|
        0 <= gi < gs.len() && representative(#[trigger] gs[gi]) == Some(e.1) && gs[gi].2.contains(
            e.0,
        ) && e.0 != e.1
}

proof fn lemma_insert_members(es: Seq<(Seq<char>, Seq<char>)>, k: Seq<char>, v: Seq<char>)
    ensures
        forall|i: int|
            0 <= i < insert_spec(es, k, v).len() ==> #[trigger] insert_spec(es, k, v)[i] == (k, v)
                || es.contains(insert_spec(es, k, v)[i]),
{
    lemma_index_of_key(es, k);
    let r = insert_spec(es, k, v);
    assert forall|i: int| 0 <= i < r.len() implies #[trigger] r[i] == (k, v) || es.contains(r[i]) by {
        if r[i] != (k, v) {
            assert(r[i] == es[i]);
        }
    }
}

proof fn lemma_group_entries_members(
    hs: Seq<Seq<char>>,
    c: Seq<char>,
    k: int,
    es: Seq<(Seq<char>, Seq<char>)>,
)
    requires
        0 <= k,
    ensures
        forall|i: int|
            0 <= i < group_entries(hs, c, k, es).len() ==> es.contains(
                #[trigger] group_entries(hs, c, k, es)[i],
            ) || (hs.contains(group_entries(hs, c, k, es)[i].0) && group_entries(hs, c, k, es)[i].1
                == c && group_entries(hs, c, k, es)[i].0 != c),
    decreases hs.len() - k,
{
    if k < hs.len() {
        let es2 = if hs[k] == c {
            es
        } else {
            insert_spec(es, hs[k], c)
        };
        lemma_group_entries_members(hs, c, k + 1, es2);
        lemma_insert_members(es, hs[k], c);
        let r = group_entries(hs, c, k, es);
        assert(r == group_entries(hs, c, k + 1, es2));
        assert forall|i: int| 0 <= i < r.len() implies es.contains(#[trigger] r[i]) || (hs.contains(
            r[i].0,
        ) && r[i].1 == c && r[i].0 != c) by {
            if es2.contains(r[i]) && hs[k] != c {
                let w = choose|x: int| 0 <= x < es2.len() && es2[x] == r[i];
                if es2[w] == (hs[k], c) {
                    assert(hs.contains(hs[k]));
                }
            }
        }
    }
}

proof fn lemma_groups_entries_members(gs: Seq<GroupView>, g: int, es: Seq<(Seq<char>, Seq<char>)>)
    requires
        0 <= g,
    ensures
        forall|i: int|
            0 <= i < groups_entries(gs, g, es).len() ==> es.contains(
                #[trigger] groups_entries(gs, g, es)[i],
            ) || from_some_group(gs, groups_entries(gs, g, es)[i]),
    decreases gs.len() - g,
{
    if g < gs.len() {
        match representative(gs[g]) {
            Some(c) => {
                let es2 = group_entries(gs[g].2, c, 0, es);
                lemma_group_entries_members(gs[g].2, c, 0, es);
                lemma_groups_entries_members(gs, g + 1, es2);
                let r = groups_entries(gs, g, es);
                assert(r == groups_entries(gs, g + 1, es2));
                assert forall|i: int| 0 <= i < r.len() implies es.contains(#[trigger] r[i])
                    || from_some_group(gs, r[i]) by {
                    assert(es2.contains(r[i]) || from_some_group(gs, r[i]));
                    if es2.contains(r[i]) && !es.contains(r[i]) {
                        let w = choose|x: int| 0 <= x < es2.len() && es2[x] == r[i];
                        assert(es.contains(es2[w]) || (gs[g].2.contains(es2[w].0) && es2[w].1 == c
                            && es2[w].0 != c));
                        assert(representative(gs[g]) == Some(r[i].1) && gs[g].2.contains(r[i].0)
                            && r[i].0 != r[i].1);
                        assert(from_some_group(gs, r[i]));
                    }
                }
            },
            None => {
                lemma_groups_entries_members(gs, g + 1, es);
                assert(groups_entries(gs, g, es) == groups_entries(gs, g + 1, es));
            },
        }
    }
}

/// Every entry read from `synonyms.txt` maps a headword of a group of the
/// file to that group's canonical form, never to itself: the headword of
/// the group's first row marked as representative (columns 4 and 6 zero),
/// in file order, or the group's first headword when no row is so marked.
pub proof fn lemma_sudachi_entries(text: Seq<char>)
    ensures
        sudachi_spec(text) matches Ok(es) ==> groups_from(lines_spec(text), 0, seq![]) matches Ok(
            gs,
        ) && forall|i: int|
            #![trigger es[i]]
            0 <= i < es.len() ==> exists|gi: int|
                0 <= gi < gs.len() && (#[trigger] gs[gi]).2.contains(es[i].0) && es[i].0 != es[i].1
                    && ((exists|j: int| first_rep_row(lines_spec(text), j, gs[gi].0, es[i].1)) || (
                forall|j: int|
                    0 <= j < lines_spec(text).len() ==> !rep_row(
                        #[trigger] lines_spec(text)[j],
                        gs[gi].0,
                    )) && es[i].1 == gs[gi].2[0]),
{
    let ls = lines_spec(text);
    let e: Seq<(Seq<char>, Seq<char>)> = seq![];
    lemma_first_representative(text);
    if let Ok(gs) = groups_from(ls, 0, seq![]) {
        lemma_groups_entries_members(gs, 0, e);
        let es = groups_entries(gs, 0, e);
        assert forall|i: int| #![trigger es[i]] 0 <= i < es.len() implies exists|gi: int|
            0 <= gi < gs.len() && (#[trigger] gs[gi]).2.contains(es[i].0) && es[i].0 != es[i].1
                && ((exists|j: int| first_rep_row(ls, j, gs[gi].0, es[i].1)) || (forall|j: int|
                0 <= j < ls.len() ==> !rep_row(#[trigger] ls[j], gs[gi].0)) && es[i].1 == gs[gi].2[0]) by {
            assert(!e.contains(es[i]));
            assert(from_some_group(gs, es[i]));
            let gi = choose|gi: int|
                0 <= gi < gs.len() && representative(#[trigger] gs[gi]) == Some(es[i].1) && gs[gi].2.contains(
                    es[i].0,
                ) && es[i].0 != es[i].1;
            assert(0 <= gi < gs.len());
            match gs[gi].1 {
                Some(c) => {
                    assert(c == es[i].1);
                    assert(exists|j: int| first_rep_row(ls, j, gs[gi].0, c));
                },
                None => {
                    assert(es[i].1 == gs[gi].2[0]);
                },
            }
        }
    }
}

} // verus!
