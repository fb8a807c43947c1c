//! The metadata descriptor of a writeup folder: the record types, their
//! mathematical views, and the parser for the descriptor text.

use vstd::prelude::*;
use crate::text::views_of;

verus! {

/// One challenge as the descriptor declares it: a display title and an
/// optional ordered tag list. The key it is filed under doubles as the stem
/// of its content file.
#[derive(Debug, Clone, PartialEq, Eq)]
pub struct ChallengeMeta {
    pub name: String,
    pub tags: Option<Vec<String>>,
}

/// The abstract value of a challenge entry.
pub struct ChallengeMetaV {
    pub name: Seq<char>,
    pub tags: Option<Seq<Seq<char>>>,
}

impl View for ChallengeMeta {
    type V = ChallengeMetaV;

    open spec fn view(&self) -> ChallengeMetaV {
        ChallengeMetaV {
            name: self.name@,
            tags: match self.tags {
                Some(v) => Some(views_of(v@)),
                None => None,
            },
        }
    }
}

/// One writeup collection: its title, an opaque date token passed through
/// verbatim, an optional description, and the challenges in the order the
/// descriptor declares them, each under its key.
#[derive(Debug, Clone, PartialEq, Eq)]
pub struct CTFMeta {
    pub name: String,
    pub date: String,
    pub description: Option<String>,
    pub challenges: Vec<(String, ChallengeMeta)>,
}

/// The abstract value of a writeup collection.
pub struct CTFMetaV {
    pub name: Seq<char>,
    pub date: Seq<char>,
    pub description: Option<Seq<char>>,
    pub challenges: Seq<(Seq<char>, ChallengeMetaV)>,
}

impl View for CTFMeta {
    type V = CTFMetaV;

    open spec fn view(&self) -> CTFMetaV {
        CTFMetaV {
            name: self.name@,
            date: self.date@,
            description: match self.description {
                Some(d) => Some(d@),
                None => None,
            },
            challenges: Seq::new(
                self.challenges@.len(),
                |i: int| (self.challenges@[i].0@, self.challenges@[i].1@),
            ),
        }
    }
}

impl CTFMetaV {
    /// No two challenges share a key; the parser only builds such records.
    pub open spec fn keys_unique(self) -> bool {
        forall|i: int, j: int|
            0 <= i < j < self.challenges.len() ==> (#[trigger] self.challenges[i]).0 != (
            #[trigger] self.challenges[j]).0
    }
}

// ---------------------------------------------------------------------
// The descriptor grammar.
//
// The descriptor is line oriented. A line is blank (only whitespace, or a
// comment opened by `#`), a table header `[part]` or `[part.part]`, or a
// key–value pair `key = value` where the value is a quoted string or an
// array of quoted strings. Quoted strings escape `"` and `\` with a
// backslash. Keys before the first header fill the collection's own
// fields; the `[challenges]` header opens the challenge table; each
// `[challenges.<key>]` header opens one challenge, whose `name` and `tags`
// keys fill its entry. Unknown keys are ignored, any other header opens a
// section that is ignored whole, and a key declared twice, a malformed
// line or a missing required field rejects the descriptor.
// ---------------------------------------------------------------------
/// Whitespace inside a line.
pub open spec fn is_ws(c: char) -> bool {
    c == ' ' || c == '\t'
}

/// A character a bare key may hold: a letter, a digit, `_` or `-`.
pub open spec fn is_key_char(c: char) -> bool {
    let u = c as u32;
    (97 <= u && u <= 122) || (65 <= u && u <= 90) || (48 <= u && u <= 57) || u == 95 || u == 45
}

/// How many whitespace characters run from position `i`.
pub open spec fn ws_len(l: Seq<char>, i: int) -> nat
    decreases l.len() - i,
{
    if i < 0 || i >= l.len() || !is_ws(l[i]) {
        0
    } else {
        1 + ws_len(l, i + 1)
    }
}

/// How many key characters run from position `i`.
pub open spec fn key_len(l: Seq<char>, i: int) -> nat
    decreases l.len() - i,
{
    if i < 0 || i >= l.len() || !is_key_char(l[i]) {
        0
    } else {
        1 + key_len(l, i + 1)
    }
}

/// A whitespace run ends within the line.
pub proof fn lemma_ws_len_le(l: Seq<char>, i: int)
    requires
        0 <= i <= l.len(),
    ensures
        i + ws_len(l, i) <= l.len(),
    decreases l.len() - i,
{
    if i < l.len() && is_ws(l[i]) {
        lemma_ws_len_le(l, i + 1);
    }
}

/// A key run ends within the line.
pub proof fn lemma_key_len_le(l: Seq<char>, i: int)
    requires
        0 <= i <= l.len(),
    ensures
        i + key_len(l, i) <= l.len(),
    decreases l.len() - i,
{
    if i < l.len() && is_key_char(l[i]) {
        lemma_key_len_le(l, i + 1);
    }
}

/// The body of a quoted string starting at position `i` (just after the
/// opening quote): the unescaped content and the position just after the
/// closing quote, or nothing when the string is unterminated or holds an
/// escape other than `\"` and `\\`.
pub open spec fn parse_str_body(l: Seq<char>, i: int) -> Option<(Seq<char>, int)>
    decreases l.len() - i,
{
    if i < 0 || i >= l.len() {
        None
    } else if l[i] == '"' {
        Some((Seq::empty(), i + 1))
    } else if l[i] == '\\' {
        if i + 1 < l.len() && (l[i + 1] == '"' || l[i + 1] == '\\') {
            match parse_str_body(l, i + 2) {
                None => None,
                Some((s, e)) => Some((seq![l[i + 1]] + s, e)),
            }
        } else {
            None
        }
    } else {
        match parse_str_body(l, i + 1) {
            None => None,
            Some((s, e)) => Some((seq![l[i]] + s, e)),
        }
    }
}

/// A parsed string body ends after its start and within the line.
pub proof fn lemma_str_body_bounds(l: Seq<char>, i: int)
    requires
        parse_str_body(l, i) is Some,
    ensures
        i < (parse_str_body(l, i)->0).1 <= l.len(),
    decreases l.len() - i,
{
    if 0 <= i < l.len() {
        if l[i] == '"' {
        } else if l[i] == '\\' {
            lemma_str_body_bounds(l, i + 2);
        } else {
            lemma_str_body_bounds(l, i + 1);
        }
    }
}

/// The rest of an array after one item: a comma and a further item, a
/// closing bracket, or a trailing comma before the closing bracket.
pub open spec fn parse_arr_rest(l: Seq<char>, i: int) -> Option<(Seq<Seq<char>>, int)>
    decreases l.len() - i,
        via parse_arr_rest_dec
{
    if i < 0 || i > l.len() {
        None
    } else {
        let j = i + ws_len(l, i);
        if j >= l.len() {
            None
        } else if l[j] == ']' {
            Some((Seq::empty(), j + 1))
        } else if l[j] == ',' {
            let k = j + 1 + ws_len(l, j + 1);
            if k >= l.len() {
                None
            } else if l[k] == ']' {
                Some((Seq::empty(), k + 1))
            } else if l[k] == '"' {
                match parse_str_body(l, k + 1) {
                    None => None,
                    Some((s, e)) => match parse_arr_rest(l, e) {
                        None => None,
                        Some((rest, e2)) => Some((seq![s] + rest, e2)),
                    },
                }
            } else {
                None
            }
        } else {
            None
        }
    }
}

#[via_fn]
proof fn parse_arr_rest_dec(l: Seq<char>, i: int) {
    if 0 <= i <= l.len() {
        lemma_ws_len_le(l, i);
        let j = i + ws_len(l, i);
        if j < l.len() && l[j] == ',' {
            lemma_ws_len_le(l, j + 1);
            let k = j + 1 + ws_len(l, j + 1);
            if k < l.len() && l[k] == '"' && parse_str_body(l, k + 1) is Some {
                lemma_str_body_bounds(l, k + 1);
            }
        }
    }
}

/// A whole array, from just after the opening bracket: the items and the
/// position just after the closing bracket.
pub open spec fn parse_arr(l: Seq<char>, i: int) -> Option<(Seq<Seq<char>>, int)> {
    if i < 0 || i > l.len() {
        None
    } else {
        let j = i + ws_len(l, i);
        if j >= l.len() {
            None
        } else if l[j] == ']' {
            Some((Seq::empty(), j + 1))
        } else if l[j] == '"' {
            match parse_str_body(l, j + 1) {
                None => None,
                Some((s, e)) => match parse_arr_rest(l, e) {
                    None => None,
                    Some((rest, e2)) => Some((seq![s] + rest, e2)),
                },
            }
        } else {
            None
        }
    }
}

/// A dotted path of bare keys, with whitespace allowed around the dots:
/// the parts and the position after the last part and its trailing
/// whitespace.
pub open spec fn parse_path(l: Seq<char>, i: int) -> Option<(Seq<Seq<char>>, int)>
    decreases l.len() - i,
        via parse_path_dec
{
    if i < 0 || i >= l.len() {
        None
    } else {
        let k = key_len(l, i) as int;
        if k == 0 {
            None
        } else {
            let part = l.subrange(i, i + k);
            let j = i + k + ws_len(l, i + k);
            if j < l.len() && l[j] == '.' {
                let m = j + 1 + ws_len(l, j + 1);
                match parse_path(l, m) {
                    None => None,
                    Some((ps, e)) => Some((seq![part] + ps, e)),
                }
            } else {
                Some((seq![part], j))
            }
        }
    }
}

#[via_fn]
proof fn parse_path_dec(l: Seq<char>, i: int) {
    if 0 <= i < l.len() {
        let k = key_len(l, i) as int;
        if k > 0 {
            lemma_key_len_le(l, i);
            lemma_ws_len_le(l, i + k);
            let j = i + k + ws_len(l, i + k);
            if j < l.len() && l[j] == '.' {
                lemma_ws_len_le(l, j + 1);
            }
        }
    }
}

/// Nothing of substance follows position `i` on the line: only whitespace,
/// possibly followed by a comment.
pub open spec fn line_end_ok(l: Seq<char>, i: int) -> bool {
    let j = i + ws_len(l, i);
    j >= l.len() || l[j] == '#'
}

/// One value: a quoted string or an array of quoted strings.
pub enum ValueV {
    VStr(Seq<char>),
    VArr(Seq<Seq<char>>),
}

/// One classified line of the descriptor.
pub enum LineV {
    Blank,
    Header(Seq<Seq<char>>),
    KeyVal(Seq<char>, ValueV),
    Bad,
}

/// What one line of the descriptor means.
pub open spec fn parse_line(l: Seq<char>) -> LineV {
    let i = ws_len(l, 0) as int;
    if i >= l.len() {
        LineV::Blank
    } else if l[i] == '#' {
        LineV::Blank
    } else if l[i] == '[' {
        match parse_path(l, i + 1 + ws_len(l, i + 1)) {
            None => LineV::Bad,
            Some((ps, j)) => if j < l.len() && l[j] == ']' && line_end_ok(l, j + 1) {
                LineV::Header(ps)
            } else {
                LineV::Bad
            },
        }
    } else {
        let k = key_len(l, i) as int;
        if k == 0 {
            LineV::Bad
        } else {
            let key = l.subrange(i, i + k);
            let j = i + k + ws_len(l, i + k);
            if j < l.len() && l[j] == '=' {
                let m = j + 1 + ws_len(l, j + 1);
                if m < l.len() && l[m] == '"' {
                    match parse_str_body(l, m + 1) {
                        None => LineV::Bad,
                        Some((s, e)) => if line_end_ok(l, e) {
                            LineV::KeyVal(key, ValueV::VStr(s))
                        } else {
                            LineV::Bad
                        },
                    }
                } else if m < l.len() && l[m] == '[' {
                    match parse_arr(l, m + 1) {
                        None => LineV::Bad,
                        Some((a, e)) => if line_end_ok(l, e) {
                            LineV::KeyVal(key, ValueV::VArr(a))
                        } else {
                            LineV::Bad
                        },
                    }
                } else {
                    LineV::Bad
                }
            } else {
                LineV::Bad
            }
        }
    }
}

/// Where in the descriptor the parser stands.
#[derive(Clone, Copy, Debug, PartialEq, Eq, Structural)]
pub enum ParseMode {
    /// Before any header: keys fill the collection's own fields.
    Top,
    /// After `[challenges]` itself, where no bare key may stand.
    InList,
    /// Inside one `[challenges.<key>]` table.
    InEntry,
    /// Inside a header the format does not know; its lines are ignored.
    Skipped,
}

/// One challenge entry while the descriptor is read.
pub struct EntryV {
    pub key: Seq<char>,
    pub name: Option<Seq<char>>,
    pub tags: Option<Seq<Seq<char>>>,
}

/// The parser's state between lines.
pub struct StV {
    pub name: Option<Seq<char>>,
    pub date: Option<Seq<char>>,
    pub description: Option<Seq<char>>,
    pub listed: bool,
    pub entries: Seq<EntryV>,
    pub mode: ParseMode,
}

/// The state before the first line.
pub open spec fn init_state() -> StV {
    StV {
        name: None,
        date: None,
        description: None,
        listed: false,
        entries: Seq::empty(),
        mode: ParseMode::Top,
    }
}

/// Some entry already carries the key.
pub open spec fn has_entry_key(entries: Seq<EntryV>, k: Seq<char>) -> bool {
    exists|i: int| 0 <= i < entries.len() && (#[trigger] entries[i]).key == k
}

/// The state after one line: blank lines change nothing, headers move
/// between tables, keys fill fields; a malformed line, a repeated field, a
/// repeated challenge key, a second `[challenges]` header or a bare key
/// directly under `[challenges]` rejects the descriptor.
pub open spec fn step_line(st: StV, l: Seq<char>) -> Result<StV, ()> {
    match parse_line(l) {
        LineV::Bad => Err(()),
        LineV::Blank => Ok(st),
        LineV::Header(ps) => if ps.len() == 1 && ps[0] == "challenges"@ {
            if st.listed {
                Err(())
            } else {
                Ok(StV { listed: true, mode: ParseMode::InList, ..st })
            }
        } else if ps.len() == 2 && ps[0] == "challenges"@ {
            if has_entry_key(st.entries, ps[1]) {
                Err(())
            } else {
                Ok(
                    StV {
                        entries: st.entries.push(EntryV { key: ps[1], name: None, tags: None }),
                        mode: ParseMode::InEntry,
                        ..st
                    },
                )
            }
        } else {
            Ok(StV { mode: ParseMode::Skipped, ..st })
        },
        LineV::KeyVal(k, v) => match st.mode {
            ParseMode::Top => if k == "name"@ {
                match v {
                    ValueV::VStr(s) => if st.name is Some {
                        Err(())
                    } else {
                        Ok(StV { name: Some(s), ..st })
                    },
                    ValueV::VArr(_) => Err(()),
                }
            } else if k == "date"@ {
                match v {
                    ValueV::VStr(s) => if st.date is Some {
                        Err(())
                    } else {
                        Ok(StV { date: Some(s), ..st })
                    },
                    ValueV::VArr(_) => Err(()),
                }
            } else if k == "description"@ {
                match v {
                    ValueV::VStr(s) => if st.description is Some {
                        Err(())
                    } else {
                        Ok(StV { description: Some(s), ..st })
                    },
                    ValueV::VArr(_) => Err(()),
                }
            } else {
                Ok(st)
            },
            ParseMode::InList => Err(()),
            ParseMode::InEntry => if st.entries.len() == 0 {
                Err(())
            } else {
                let n = st.entries.len() - 1;
                if k == "name"@ {
                    match v {
                        ValueV::VStr(s) => if st.entries[n].name is Some {
                            Err(())
                        } else {
                            Ok(
                                StV {
                                    entries: st.entries.update(
                                        n,
                                        EntryV { name: Some(s), ..st.entries[n] },
                                    ),
                                    ..st
                                },
                            )
                        },
                        ValueV::VArr(_) => Err(()),
                    }
                } else if k == "tags"@ {
                    match v {
                        ValueV::VArr(a) => if st.entries[n].tags is Some {
                            Err(())
                        } else {
                            Ok(
                                StV {
                                    entries: st.entries.update(
                                        n,
                                        EntryV { tags: Some(a), ..st.entries[n] },
                                    ),
                                    ..st
                                },
                            )
                        },
                        ValueV::VStr(_) => Err(()),
                    }
                } else {
                    Ok(st)
                }
            },
            ParseMode::Skipped => Ok(st),
        },
    }
}

/// The record a finished state yields: the required fields must be there —
/// a name, a date, the challenge table itself and a name in every
/// challenge entry.
pub open spec fn finish_state(st: StV) -> Result<CTFMetaV, ()> {
    if st.name is Some && st.date is Some && (st.listed || st.entries.len() > 0) && (forall|i: int|
        0 <= i < st.entries.len() ==> (#[trigger] st.entries[i]).name is Some) {
        Ok(
            CTFMetaV {
                name: st.name->0,
                date: st.date->0,
                description: st.description,
                challenges: Seq::new(
                    st.entries.len(),
                    |i: int|
                        (
                            st.entries[i].key,
                            ChallengeMetaV { name: st.entries[i].name->0, tags: st.entries[i].tags },
                        ),
                ),
            },
        )
    } else {
        Err(())
    }
}

/// How many characters of line remain before the next line break.
pub open spec fn line_len(s: Seq<char>, i: int) -> nat
    decreases s.len() - i,
{
    if i < 0 || i >= s.len() || s[i] == '\n' {
        0
    } else {
        1 + line_len(s, i + 1)
    }
}

/// A line ends within the text.
pub proof fn lemma_line_len_le(s: Seq<char>, i: int)
    requires
        0 <= i <= s.len(),
    ensures
        i + line_len(s, i) <= s.len(),
    decreases s.len() - i,
{
    if i < s.len() && s[i] != '\n' {
        lemma_line_len_le(s, i + 1);
    }
}

/// The descriptor from position `i` on, folded line by line over the
/// state.
pub open spec fn run_from(s: Seq<char>, i: int, st: StV) -> Result<CTFMetaV, ()>
    decreases s.len() - i,
        via run_from_dec
{
    if i < 0 {
        Err(())
    } else if i >= s.len() {
        finish_state(st)
    } else {
        let n = line_len(s, i) as int;
        match step_line(st, s.subrange(i, i + n)) {
            Err(e) => Err(e),
            Ok(st2) => if i + n < s.len() {
                run_from(s, i + n + 1, st2)
            } else {
                finish_state(st2)
            },
        }
    }
}

#[via_fn]
proof fn run_from_dec(s: Seq<char>, i: int, st: StV) {
    if 0 <= i < s.len() {
        lemma_line_len_le(s, i);
    }
}

/// What the whole descriptor text means: the parsed record, or nothing
/// where the text is rejected.
pub open spec fn spec_parse_meta(s: Seq<char>) -> Result<CTFMetaV, ()> {
    run_from(s, 0, init_state())
}

// ---------------------------------------------------------------------
// The executable parser, proved to follow the grammar above exactly.
// ---------------------------------------------------------------------
/// The descriptor was rejected: it is malformed, declares a field or a
/// challenge key twice, or misses a required field.
#[derive(Clone, Copy, Debug, PartialEq, Eq, Structural)]
pub struct ParseError;

fn is_ws_char(c: char) -> (r: bool)
    ensures
        r == is_ws(c),
{
    c == ' ' || c == '\t'
}

fn is_key_char_e(c: char) -> (r: bool)
    ensures
        r == is_key_char(c),
{
    let u = c as u32;
    (97 <= u && u <= 122) || (65 <= u && u <= 90) || (48 <= u && u <= 57) || u == 95 || u == 45
}

/// Where the whitespace run that starts at `i` ends.
fn skip_ws(l: &Vec<char>, i: usize) -> (r: usize)
    requires
        i <= l@.len(),
    ensures
        r == i + ws_len(l@, i as int),
        i <= r <= l@.len(),
    decreases l@.len() - i,
{
    let mut j = i;
    while j < l.len() && is_ws_char(l[j])
        invariant
            i <= j <= l@.len(),
            ws_len(l@, i as int) == j - i + ws_len(l@, j as int),
        decreases l@.len() - j,
    {
        j += 1;
    }
    j
}

/// Where the key-character run that starts at `i` ends.
fn skip_key(l: &Vec<char>, i: usize) -> (r: usize)
    requires
        i <= l@.len(),
    ensures
        r == i + key_len(l@, i as int),
        i <= r <= l@.len(),
    decreases l@.len() - i,
{
    let mut j = i;
    while j < l.len() && is_key_char_e(l[j])
        invariant
            i <= j <= l@.len(),
            key_len(l@, i as int) == j - i + key_len(l@, j as int),
        decreases l@.len() - j,
    {
        j += 1;
    }
    j
}

/// The characters of `l` between `a` and `b`, as an owned string.
fn chars_substring(l: &Vec<char>, a: usize, b: usize) -> (r: String)
    requires
        a <= b <= l@.len(),
    ensures
        r@ == l@.subrange(a as int, b as int),
{
    let mut out = String::new();
    let mut i = a;
    while i < b
        invariant
            a <= i <= b <= l@.len(),
            out@ == l@.subrange(a as int, i as int),
        decreases b - i,
    {
        crate::text::push_char(&mut out, l[i]);
        proof {
            assert(l@.subrange(a as int, i as int).push(l@[i as int]) =~= l@.subrange(
                a as int,
                i + 1,
            ));
        }
        i += 1;
    }
    out
}

/// The characters of `l` between `a` and `b`, as an owned vector.
fn chars_subvec(l: &Vec<char>, a: usize, b: usize) -> (r: Vec<char>)
    requires
        a <= b <= l@.len(),
    ensures
        r@ == l@.subrange(a as int, b as int),
{
    let mut out: Vec<char> = Vec::new();
    let mut i = a;
    while i < b
        invariant
            a <= i <= b <= l@.len(),
            out@ == l@.subrange(a as int, i as int),
        decreases b - i,
    {
        out.push(l[i]);
        proof {
            assert(l@.subrange(a as int, i as int).push(l@[i as int]) =~= l@.subrange(
                a as int,
                i + 1,
            ));
        }
        i += 1;
    }
    out
}

/// A quoted string body from position `i`, as the grammar reads it.
fn str_body(l: &Vec<char>, i: usize) -> (r: Option<(String, usize)>)
    requires
        i <= l@.len(),
    ensures
        match r {
            None => parse_str_body(l@, i as int) is None,
            Some(p) => parse_str_body(l@, i as int) == Some((p.0@, p.1 as int)) && i < p.1
                <= l@.len(),
        },
    decreases l@.len() - i,
{
    if i >= l.len() {
        None
    } else if l[i] == '"' {
        Some((String::new(), i + 1))
    } else if l[i] == '\\' {
        if i + 1 < l.len() && (l[i + 1] == '"' || l[i + 1] == '\\') {
            match str_body(l, i + 2) {
                None => None,
                Some((s, e)) => {
                    let mut h = String::new();
                    crate::text::push_char(&mut h, l[i + 1]);
                    h.append(s.as_str());
                    proof {
                        assert(h@ =~= seq![l@[i + 1]] + s@);
                    }
                    Some((h, e))
                },
            }
        } else {
            None
        }
    } else {
        match str_body(l, i + 1) {
            None => None,
            Some((s, e)) => {
                let mut h = String::new();
                crate::text::push_char(&mut h, l[i]);
                h.append(s.as_str());
                proof {
                    assert(h@ =~= seq![l@[i as int]] + s@);
                }
                Some((h, e))
            },
        }
    }
}

/// The rest of an array after one item, as the grammar reads it.
fn arr_rest(l: &Vec<char>, i: usize) -> (r: Option<(Vec<String>, usize)>)
    requires
        i <= l@.len(),
    ensures
        match r {
            None => parse_arr_rest(l@, i as int) is None,
            Some(p) => parse_arr_rest(l@, i as int) == Some((views_of(p.0@), p.1 as int)) && p.1
                <= l@.len(),
        },
    decreases l@.len() - i,
{
    let j = skip_ws(l, i);
    if j >= l.len() {
        None
    } else if l[j] == ']' {
        let out: Vec<String> = Vec::new();
        proof {
            assert(views_of(out@) =~= Seq::<Seq<char>>::empty());
        }
        Some((out, j + 1))
    } else if l[j] == ',' {
        let k = skip_ws(l, j + 1);
        if k >= l.len() {
            None
        } else if l[k] == ']' {
            let out: Vec<String> = Vec::new();
            proof {
                assert(views_of(out@) =~= Seq::<Seq<char>>::empty());
            }
            Some((out, k + 1))
        } else if l[k] == '"' {
            match str_body(l, k + 1) {
                None => None,
                Some((s, e)) => match arr_rest(l, e) {
                    None => None,
                    Some((mut rest, e2)) => {
                        let ghost rest0 = rest@;
                        let mut out: Vec<String> = Vec::new();
                        out.push(s);
                        out.append(&mut rest);
                        proof {
                            assert(views_of(out@) =~= seq![out@[0]@] + views_of(rest0));
                        }
                        Some((out, e2))
                    },
                },
            }
        } else {
            None
        }
    } else {
        None
    }
}

/// A whole array from just after its opening bracket, as the grammar
/// reads it.
fn arr(l: &Vec<char>, i: usize) -> (r: Option<(Vec<String>, usize)>)
    requires
        i <= l@.len(),
    ensures
        match r {
            None => parse_arr(l@, i as int) is None,
            Some(p) => parse_arr(l@, i as int) == Some((views_of(p.0@), p.1 as int)) && p.1
                <= l@.len(),
        },
{
    let j = skip_ws(l, i);
    if j >= l.len() {
        None
    } else if l[j] == ']' {
        let out: Vec<String> = Vec::new();
        proof {
            assert(views_of(out@) =~= Seq::<Seq<char>>::empty());
        }
        Some((out, j + 1))
    } else if l[j] == '"' {
        match str_body(l, j + 1) {
            None => None,
            Some((s, e)) => match arr_rest(l, e) {
                None => None,
                Some((mut rest, e2)) => {
                    let ghost rest0 = rest@;
                    let mut out: Vec<String> = Vec::new();
                    out.push(s);
                    out.append(&mut rest);
                    proof {
                        assert(views_of(out@) =~= seq![out@[0]@] + views_of(rest0));
                    }
                    Some((out, e2))
                },
            },
        }
    } else {
        None
    }
}

/// A dotted path of bare keys, as the grammar reads it.
fn path(l: &Vec<char>, i: usize) -> (r: Option<(Vec<String>, usize)>)
    requires
        i <= l@.len(),
    ensures
        match r {
            None => parse_path(l@, i as int) is None,
            Some(p) => parse_path(l@, i as int) == Some((views_of(p.0@), p.1 as int)) && p.1
                <= l@.len(),
        },
    decreases l@.len() - i,
{
    if i >= l.len() {
        return None;
    }
    let e = skip_key(l, i);
    if e == i {
        return None;
    }
    let part = chars_substring(l, i, e);
    let j = skip_ws(l, e);
    if j < l.len() && l[j] == '.' {
        let m = skip_ws(l, j + 1);
        match path(l, m) {
            None => None,
            Some((mut ps, e2)) => {
                let ghost ps0 = ps@;
                let mut out: Vec<String> = Vec::new();
                out.push(part);
                out.append(&mut ps);
                proof {
                    assert(views_of(out@) =~= seq![out@[0]@] + views_of(ps0));
                }
                Some((out, e2))
            },
        }
    } else {
        let mut out: Vec<String> = Vec::new();
        out.push(part);
        proof {
            assert(views_of(out@) =~= seq![l@.subrange(i as int, e as int)]);
        }
        Some((out, j))
    }
}

/// Whether only whitespace or a comment follows position `i`.
fn line_end(l: &Vec<char>, i: usize) -> (r: bool)
    requires
        i <= l@.len(),
    ensures
        r == line_end_ok(l@, i as int),
{
    let j = skip_ws(l, i);
    j >= l.len() || l[j] == '#'
}

/// One value as read: a quoted string or an array of quoted strings.
pub enum ValueE {
    VStr(String),
    VArr(Vec<String>),
}

impl View for ValueE {
    type V = ValueV;

    open spec fn view(&self) -> ValueV {
        match self {
            ValueE::VStr(s) => ValueV::VStr(s@),
            ValueE::VArr(a) => ValueV::VArr(views_of(a@)),
        }
    }
}

/// One classified line as read.
pub enum LineE {
    Blank,
    Header(Vec<String>),
    KeyVal(String, ValueE),
    Bad,
}

impl View for LineE {
    type V = LineV;

    open spec fn view(&self) -> LineV {
        match self {
            LineE::Blank => LineV::Blank,
            LineE::Header(ps) => LineV::Header(views_of(ps@)),
            LineE::KeyVal(k, v) => LineV::KeyVal(k@, v@),
            LineE::Bad => LineV::Bad,
        }
    }
}

/// What one line of the descriptor means, as the grammar reads it.
fn classify_line(l: &Vec<char>) -> (r: LineE)
    ensures
        r@ == parse_line(l@),
{
    let i = skip_ws(l, 0);
    if i >= l.len() {
        return LineE::Blank;
    }
    if l[i] == '#' {
        return LineE::Blank;
    }
    if l[i] == '[' {
        let m = skip_ws(l, i + 1);
        return match path(l, m) {
            None => LineE::Bad,
            Some((ps, j)) => {
                if j < l.len() && l[j] == ']' && line_end(l, j + 1) {
                    LineE::Header(ps)
                } else {
                    LineE::Bad
                }
            },
        };
    }
    let e = skip_key(l, i);
    if e == i {
        return LineE::Bad;
    }
    let key = chars_substring(l, i, e);
    let j = skip_ws(l, e);
    if j < l.len() && l[j] == '=' {
        let m = skip_ws(l, j + 1);
        if m < l.len() && l[m] == '"' {
            match str_body(l, m + 1) {
                None => LineE::Bad,
                Some((s, e2)) => {
                    if line_end(l, e2) {
                        LineE::KeyVal(key, ValueE::VStr(s))
                    } else {
                        LineE::Bad
                    }
                },
            }
        } else if m < l.len() && l[m] == '[' {
            match arr(l, m + 1) {
                None => LineE::Bad,
                Some((a, e2)) => {
                    if line_end(l, e2) {
                        LineE::KeyVal(key, ValueE::VArr(a))
                    } else {
                        LineE::Bad
                    }
                },
            }
        } else {
            LineE::Bad
        }
    } else {
        LineE::Bad
    }
}

/// One challenge entry while the descriptor is read.
pub struct Entry {
    pub key: String,
    pub name: Option<String>,
    pub tags: Option<Vec<String>>,
}

impl View for Entry {
    type V = EntryV;

    open spec fn view(&self) -> EntryV {
        EntryV {
            key: self.key@,
            name: match self.name {
                Some(n) => Some(n@),
                None => None,
            },
            tags: match self.tags {
                Some(t) => Some(views_of(t@)),
                None => None,
            },
        }
    }
}

/// The parser's state between lines, as held at run time.
pub struct ParseSt {
    pub name: Option<String>,
    pub date: Option<String>,
    pub description: Option<String>,
    pub listed: bool,
    pub entries: Vec<Entry>,
    pub mode: ParseMode,
}

/// The views of the entries.
pub open spec fn entry_views(v: Seq<Entry>) -> Seq<EntryV> {
    Seq::new(v.len(), |i: int| v[i]@)
}

impl View for ParseSt {
    type V = StV;

    open spec fn view(&self) -> StV {
        StV {
            name: match self.name {
                Some(n) => Some(n@),
                None => None,
            },
            date: match self.date {
                Some(d) => Some(d@),
                None => None,
            },
            description: match self.description {
                Some(d) => Some(d@),
                None => None,
            },
            listed: self.listed,
            entries: entry_views(self.entries@),
            mode: self.mode,
        }
    }
}

/// Whether some entry already carries the key.
fn entries_have_key(entries: &Vec<Entry>, k: &str) -> (r: bool)
    ensures
        r == has_entry_key(entry_views(entries@), k@),
{
    let mut i: usize = 0;
    while i < entries.len()
        invariant
            i <= entries@.len(),
            forall|j: int| 0 <= j < i ==> entry_views(entries@)[j].key != k@,
        decreases entries@.len() - i,
    {
        if crate::text::str_eq(entries[i].key.as_str(), k) {
            proof {
                assert(entry_views(entries@)[i as int].key == k@);
            }
            return true;
        }
        i += 1;
    }
    false
}

/// The state after one line, as the grammar reads it.
fn step_line_e(st: ParseSt, l: &Vec<char>) -> (r: Result<ParseSt, ParseError>)
    ensures
        match r {
            Ok(st2) => step_line(st@, l@) == Ok::<StV, ()>(st2@),
            Err(_) => step_line(st@, l@) is Err,
        },
{
    let ghost st0 = st@;
    match classify_line(l) {
        LineE::Bad => Err(ParseError),
        LineE::Blank => Ok(st),
        LineE::Header(ps) => {
            if ps.len() == 1 && crate::text::str_eq(ps[0].as_str(), "challenges") {
                if st.listed {
                    Err(ParseError)
                } else {
                    let st2 = ParseSt { listed: true, mode: ParseMode::InList, ..st };
                    proof {
                        assert(st2@ == StV { listed: true, mode: ParseMode::InList, ..st0 });
                    }
                    Ok(st2)
                }
            } else if ps.len() == 2 && crate::text::str_eq(ps[0].as_str(), "challenges") {
                proof {
                    assert(views_of(ps@)[0] == "challenges"@);
                    assert(views_of(ps@)[1] == ps@[1]@);
                }
                if entries_have_key(&st.entries, ps[1].as_str()) {
                    Err(ParseError)
                } else {
                    let mut st2 = st;
                    let k = ps[1].clone();
                    st2.entries.push(Entry { key: k, name: None, tags: None });
                    proof {
                        assert(entry_views(st2.entries@) =~= st0.entries.push(
                            EntryV { key: views_of(ps@)[1], name: None, tags: None },
                        ));
                    }
                    st2.mode = ParseMode::InEntry;
                    Ok(st2)
                }
            } else {
                proof {
                    if ps@.len() == 1 {
                        assert(views_of(ps@)[0] == ps@[0]@);
                    }
                    if ps@.len() == 2 {
                        assert(views_of(ps@)[0] == ps@[0]@);
                    }
                }
                let st2 = ParseSt { mode: ParseMode::Skipped, ..st };
                proof {
                    assert(st2@ == StV { mode: ParseMode::Skipped, ..st0 });
                }
                Ok(st2)
            }
        },
        LineE::KeyVal(k, v) => {
            match st.mode {
                ParseMode::Top => {
                    if crate::text::str_eq(k.as_str(), "name") {
                        match v {
                            ValueE::VStr(s) => {
                                if st.name.is_some() {
                                    Err(ParseError)
                                } else {
                                    let ghost sv = s@;
                                    let st2 = ParseSt { name: Some(s), ..st };
                                    proof {
                                        assert(st2@ == StV { name: Some(sv), ..st0 });
                                    }
                                    Ok(st2)
                                }
                            },
                            ValueE::VArr(_) => Err(ParseError),
                        }
                    } else if crate::text::str_eq(k.as_str(), "date") {
                        match v {
                            ValueE::VStr(s) => {
                                if st.date.is_some() {
                                    Err(ParseError)
                                } else {
                                    let ghost sv = s@;
                                    let st2 = ParseSt { date: Some(s), ..st };
                                    proof {
                                        assert(st2@ == StV { date: Some(sv), ..st0 });
                                    }
                                    Ok(st2)
                                }
                            },
                            ValueE::VArr(_) => Err(ParseError),
                        }
                    } else if crate::text::str_eq(k.as_str(), "description") {
                        match v {
                            ValueE::VStr(s) => {
                                if st.description.is_some() {
                                    Err(ParseError)
                                } else {
                                    let ghost sv = s@;
                                    let st2 = ParseSt { description: Some(s), ..st };
                                    proof {
                                        assert(st2@ == StV { description: Some(sv), ..st0 });
                                    }
                                    Ok(st2)
                                }
                            },
                            ValueE::VArr(_) => Err(ParseError),
                        }
                    } else {
                        Ok(st)
                    }
                },
                ParseMode::InList => Err(ParseError),
                ParseMode::InEntry => {
                    if st.entries.len() == 0 {
                        Err(ParseError)
                    } else {
                        let n = st.entries.len() - 1;
                        if crate::text::str_eq(k.as_str(), "name") {
                            match v {
                                ValueE::VStr(s) => {
                                    if st.entries[n].name.is_some() {
                                        Err(ParseError)
                                    } else {
                                        let ghost sv = s@;
                                        let mut st2 = st;
                                        let mut e = st2.entries.pop().unwrap();
                                        e.name = Some(s);
                                        st2.entries.push(e);
                                        proof {
                                            assert(entry_views(st2.entries@) =~= st0.entries
                                                .update(
                                                n as int,
                                                EntryV {
                                                    name: Some(sv),
                                                    ..st0.entries[n as int]
                                                },
                                            ));
                                        }
                                        Ok(st2)
                                    }
                                },
                                ValueE::VArr(_) => Err(ParseError),
                            }
                        } else if crate::text::str_eq(k.as_str(), "tags") {
                            match v {
                                ValueE::VArr(a) => {
                                    if st.entries[n].tags.is_some() {
                                        Err(ParseError)
                                    } else {
                                        let ghost av = views_of(a@);
                                        let mut st2 = st;
                                        let mut e = st2.entries.pop().unwrap();
                                        e.tags = Some(a);
                                        st2.entries.push(e);
                                        proof {
                                            assert(entry_views(st2.entries@) =~= st0.entries
                                                .update(
                                                n as int,
                                                EntryV {
                                                    tags: Some(av),
                                                    ..st0.entries[n as int]
                                                },
                                            ));
                                        }
                                        Ok(st2)
                                    }
                                },
                                ValueE::VStr(_) => Err(ParseError),
                            }
                        } else {
                            Ok(st)
                        }
                    }
                },
                ParseMode::Skipped => Ok(st),
            }
        },
    }
}

/// How many characters of line remain before the next line break.
fn line_len_e(cs: &Vec<char>, i: usize) -> (r: usize)
    requires
        i <= cs@.len(),
    ensures
        r == line_len(cs@, i as int),
        i + r <= cs@.len(),
    decreases cs@.len() - i,
{
    let mut j = i;
    while j < cs.len() && cs[j] != '\n'
        invariant
            i <= j <= cs@.len(),
            line_len(cs@, i as int) == j - i + line_len(cs@, j as int),
        decreases cs@.len() - j,
    {
        j += 1;
    }
    j - i
}

/// The record a finished state yields.
fn finish_e(st: ParseSt) -> (r: Result<CTFMeta, ParseError>)
    ensures
        match r {
            Ok(m) => finish_state(st@) == Ok::<CTFMetaV, ()>(m@),
            Err(_) => finish_state(st@) is Err,
        },
{
    let ghost st0 = st@;
    let name = match &st.name {
        Some(n) => n.clone(),
        None => {
            return Err(ParseError);
        },
    };
    let date = match &st.date {
        Some(d) => d.clone(),
        None => {
            return Err(ParseError);
        },
    };
    let description = match &st.description {
        Some(d) => Some(d.clone()),
        None => None,
    };
    let entries = &st.entries;
    if !st.listed && entries.len() == 0 {
        return Err(ParseError);
    }
    let mut challenges: Vec<(String, ChallengeMeta)> = Vec::new();
    let mut i: usize = 0;
    while i < entries.len()
        invariant
            st0 == st@,
            i <= entries@.len(),
            st0.entries == entry_views(entries@),
            challenges@.len() == i,
            forall|j: int| 0 <= j < i ==> (#[trigger] st0.entries[j]).name is Some,
            forall|j: int|
                0 <= j < i ==> ((#[trigger] challenges@[j]).0@, challenges@[j].1@) == (
                    st0.entries[j].key,
                    ChallengeMetaV {
                        name: st0.entries[j].name->0,
                        tags: st0.entries[j].tags,
                    },
                ),
        decreases entries@.len() - i,
    {
        let e = &entries[i];
        let nm = match &e.name {
            Some(n) => n.clone(),
            None => {
                proof {
                    assert(st0.entries[i as int].name is None);
                    assert(!(forall|j: int|
                        0 <= j < st0.entries.len() ==> (#[trigger] st0.entries[j]).name
                            is Some)) by {
                        assert(0 <= i < st0.entries.len());
                    };
                    assert(finish_state(st0) is Err);
                }
                return Err(ParseError);
            },
        };
        let tg = match &e.tags {
            Some(t) => Some(crate::text::clone_strings(t)),
            None => None,
        };
        let key = e.key.clone();
        challenges.push((key, ChallengeMeta { name: nm, tags: tg }));
        proof {
            assert(challenges@[i as int].1@ == ChallengeMetaV {
                name: st0.entries[i as int].name->0,
                tags: st0.entries[i as int].tags,
            });
        }
        i += 1;
    }
    let m = CTFMeta { name, date, description, challenges };
    proof {
        assert(finish_state(st0) is Ok);
        assert(m@.challenges =~= finish_state(st0)->Ok_0.challenges);
        assert(m@ == finish_state(st0)->Ok_0);
    }
    Ok(m)
}

/// The writeup collection a descriptor text declares: the parsed record,
/// or an error where the text does not follow the grammar, declares a
/// field or a challenge key twice, or misses a required field (`name`,
/// `date`, the challenge table, or a challenge's `name`).
pub fn parse_ctf_meta(s: &str) -> (r: Result<CTFMeta, ParseError>)
    ensures
        r is Ok <==> spec_parse_meta(s@) is Ok,
        r matches Ok(m) ==> spec_parse_meta(s@) == Ok::<CTFMetaV, ()>(m@),
{
    let cs = crate::text::str_chars(s);
    let n = cs.len();
    let mut st = ParseSt {
        name: None,
        date: None,
        description: None,
        listed: false,
        entries: Vec::new(),
        mode: ParseMode::Top,
    };
    proof {
        assert(entry_views(st.entries@) =~= Seq::<EntryV>::empty());
        assert(st@ == init_state());
    }
    let mut i: usize = 0;
    while i < n
        invariant
            cs@ == s@,
            n == s@.len(),
            i <= n,
            run_from(s@, 0, init_state()) == run_from(s@, i as int, st@),
        decreases n - i,
    {
        let ll = line_len_e(&cs, i);
        let line = chars_subvec(&cs, i, i + ll);
        let ghost stv = st@;
        match step_line_e(st, &line) {
            Err(e) => {
                proof {
                    assert(run_from(s@, i as int, stv) is Err);
                }
                return Err(e);
            },
            Ok(st2) => {
                st = st2;
            },
        }
        if i + ll < n {
            i = i + ll + 1;
        } else {
            i = n;
        }
    }
    finish_e(st)
}

/// The entry keys are pairwise distinct.
pub open spec fn entries_unique(es: Seq<EntryV>) -> bool {
    forall|i: int, j: int|
        0 <= i < j < es.len() ==> (#[trigger] es[i]).key != (#[trigger] es[j]).key
}

/// One line keeps the entry keys pairwise distinct.
proof fn lemma_step_keeps_unique(st: StV, l: Seq<char>)
    requires
        entries_unique(st.entries),
        step_line(st, l) is Ok,
    ensures
        entries_unique((step_line(st, l)->Ok_0).entries),
{
    let st2 = step_line(st, l)->Ok_0;
    match parse_line(l) {
        LineV::Header(ps) => {
            if ps.len() == 2 && ps[0] == "challenges"@ {
                assert(!has_entry_key(st.entries, ps[1]));
                assert forall|i: int, j: int|
                    0 <= i < j < st2.entries.len() implies (#[trigger] st2.entries[i]).key != (
                #[trigger] st2.entries[j]).key by {
                    if j == st.entries.len() {
                        assert(st2.entries[i] == st.entries[i]);
                    }
                }
            }
        },
        _ => {},
    }
}

/// The fold keeps the entry keys pairwise distinct, so a parsed record's
/// challenge keys are pairwise distinct.
proof fn lemma_run_unique(s: Seq<char>, i: int, st: StV)
    requires
        entries_unique(st.entries),
    ensures
        run_from(s, i, st) matches Ok(m) ==> m.keys_unique(),
    decreases s.len() - i,
{
    if i < 0 {
    } else if i >= s.len() {
        if finish_state(st) is Ok {
            let m = finish_state(st)->Ok_0;
            assert forall|a: int, b: int| 0 <= a < b < m.challenges.len() implies (
            #[trigger] m.challenges[a]).0 != (#[trigger] m.challenges[b]).0 by {
                assert(m.challenges[a].0 == st.entries[a].key);
                assert(m.challenges[b].0 == st.entries[b].key);
            }
        }
    } else {
        let n = line_len(s, i) as int;
        match step_line(st, s.subrange(i, i + n)) {
            Err(_) => {},
            Ok(st2) => {
                lemma_step_keeps_unique(st, s.subrange(i, i + n));
                if i + n < s.len() {
                    lemma_line_len_le(s, i);
                    lemma_run_unique(s, i + n + 1, st2);
                } else {
                    if finish_state(st2) is Ok {
                        let m = finish_state(st2)->Ok_0;
                        assert forall|a: int, b: int| 0 <= a < b < m.challenges.len() implies (
                        #[trigger] m.challenges[a]).0 != (#[trigger] m.challenges[b]).0 by {
                            assert(m.challenges[a].0 == st2.entries[a].key);
                            assert(m.challenges[b].0 == st2.entries[b].key);
                        }
                    }
                }
            },
        }
    }
}

/// A law of the parser: no two challenges of a parsed record share a key.
pub proof fn lemma_parsed_keys_unique(s: Seq<char>)
    ensures
        spec_parse_meta(s) matches Ok(m) ==> m.keys_unique(),
{
    lemma_run_unique(s, 0, init_state());
}

} // verus!
