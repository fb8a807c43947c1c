//! Character-level building blocks: quoting with escapes, list joining,
//! markdown heading demotion and substring search, each with an exact
//! sequence-level specification.

use vstd::prelude::*;
use vstd::string::StrSliceExecFns;
use vstd::string::StringExecFns;

verus! {

/// One character, escaped as quoted strings in the front matter require:
/// a backslash goes before `"` and `\`, every other character is unchanged.
pub open spec fn escape_char(c: char) -> Seq<char> {
    if c == '"' || c == '\\' {
        seq!['\\', c]
    } else {
        seq![c]
    }
}

/// The characters of `s` from position `i` on, each escaped.
pub open spec fn escape_from(s: Seq<char>, i: int) -> Seq<char>
    decreases s.len() - i,
{
    if i < 0 || i >= s.len() {
        Seq::empty()
    } else {
        escape_char(s[i]) + escape_from(s, i + 1)
    }
}

/// All of `s`, escaped.
pub open spec fn escape_chars(s: Seq<char>) -> Seq<char> {
    escape_from(s, 0)
}

/// `s` wrapped in double quotes, with embedded quotes and backslashes escaped.
pub open spec fn quoted(s: Seq<char>) -> Seq<char> {
    seq!['"'] + escape_chars(s) + seq!['"']
}

/// The items from position `i` on, each quoted, joined by commas.
pub open spec fn joined_quoted_from(items: Seq<Seq<char>>, i: int) -> Seq<char>
    decreases items.len() - i,
{
    if i < 0 || i >= items.len() {
        Seq::empty()
    } else if i == items.len() - 1 {
        quoted(items[i])
    } else {
        quoted(items[i]) + seq![','] + joined_quoted_from(items, i + 1)
    }
}

/// All items quoted and comma-joined, with no trailing comma; empty input
/// gives the empty sequence.
pub open spec fn joined_quoted(items: Seq<Seq<char>>) -> Seq<char> {
    joined_quoted_from(items, 0)
}

/// `s` from position `i` on with every `\n#` pair turned into `\n##`,
/// scanning left to right without overlap: one extra `#` after each newline
/// that a `#` follows, which demotes a markdown heading one level.
pub open spec fn demoted_from(s: Seq<char>, i: int) -> Seq<char>
    decreases s.len() - i,
{
    if i < 0 || i >= s.len() {
        Seq::empty()
    } else if i + 1 < s.len() && s[i] == '\n' && s[i + 1] == '#' {
        seq!['\n', '#', '#'] + demoted_from(s, i + 2)
    } else {
        seq![s[i]] + demoted_from(s, i + 1)
    }
}

/// All of `s` with markdown headings demoted one level.
pub open spec fn demoted(s: Seq<char>) -> Seq<char> {
    demoted_from(s, 0)
}

/// `pat` occurs somewhere in `s` as a contiguous run.
pub open spec fn has_substring(s: Seq<char>, pat: Seq<char>) -> bool {
    exists|k: int|
        0 <= k <= s.len() - pat.len() && #[trigger] s.subrange(k, k + pat.len() as int) == pat
}

/// A sequence that starts with `p` contains `p`.
pub proof fn lemma_substring_prefix(s: Seq<char>, p: Seq<char>)
    requires
        p.len() <= s.len(),
        s.subrange(0, p.len() as int) == p,
    ensures
        has_substring(s, p),
{
    assert(s.subrange(0, 0 + p.len() as int) == p);
}

/// A substring of `b` is a substring of `a + b`.
pub proof fn lemma_substring_concat_right(a: Seq<char>, b: Seq<char>, p: Seq<char>)
    requires
        has_substring(b, p),
    ensures
        has_substring(a + b, p),
{
    let k = choose|k: int|
        0 <= k <= b.len() - p.len() && #[trigger] b.subrange(k, k + p.len() as int) == p;
    assert((a + b).subrange(a.len() + k, a.len() + k + p.len() as int) =~= b.subrange(
        k,
        k + p.len() as int,
    ));
}

/// The views of a sequence of strings.
pub open spec fn views_of(v: Seq<String>) -> Seq<Seq<char>> {
    Seq::new(v.len(), |i: int| v[i]@)
}

/// An owned copy of a list of strings.
pub fn clone_strings(v: &Vec<String>) -> (r: Vec<String>)
    ensures
        r@ == v@,
{
    let mut r: Vec<String> = Vec::new();
    let mut i: usize = 0;
    while i < v.len()
        invariant
            i <= v@.len(),
            r@ == v@.take(i as int),
        decreases v@.len() - i,
    {
        r.push(v[i].clone());
        proof {
            assert(v@.take(i as int).push(v@[i as int]) =~= v@.take(i as int + 1));
        }
        i += 1;
    }
    proof {
        assert(v@.take(v@.len() as int) =~= v@);
    }
    r
}

/// Relies on `String::push`: appends the given character to the end of the
/// string.
#[verifier::external_body]
pub fn push_char(s: &mut String, c: char)
    ensures
        final(s)@ == old(s)@.push(c),
{
    s.push(c)
}

/// The characters of `s`, one by one.
pub fn str_chars(s: &str) -> (r: Vec<char>)
    ensures
        r@ == s@,
{
    let n = s.unicode_len();
    let mut r: Vec<char> = Vec::new();
    let mut i: usize = 0;
    while i < n
        invariant
            n == s@.len(),
            i <= n,
            r@ == s@.take(i as int),
        decreases n - i,
    {
        let c = s.get_char(i);
        r.push(c);
        proof {
            assert(s@.take(i as int).push(s@[i as int]) =~= s@.take(i as int + 1));
        }
        i += 1;
    }
    proof {
        assert(s@.take(n as int) =~= s@);
    }
    r
}

/// Whether two string slices hold the same characters.
pub fn str_eq(a: &str, b: &str) -> (r: bool)
    ensures
        r == (a@ == b@),
{
    let na = a.unicode_len();
    let nb = b.unicode_len();
    if na != nb {
        return false;
    }
    let mut i: usize = 0;
    while i < na
        invariant
            na == a@.len(),
            na == b@.len(),
            i <= na,
            forall|j: int| 0 <= j < i ==> a@[j] == b@[j],
        decreases na - i,
    {
        if a.get_char(i) != b.get_char(i) {
            return false;
        }
        i += 1;
    }
    proof {
        assert(a@ =~= b@);
    }
    true
}

/// `s` wrapped in double quotes, with embedded quotes and backslashes
/// escaped by a backslash.
pub fn quote_str(s: &str) -> (r: String)
    ensures
        r@ == quoted(s@),
{
    let cs = str_chars(s);
    let mut out = String::new();
    push_char(&mut out, '"');
    proof {
        assert(out@ =~= seq!['"']);
    }
    let mut i: usize = 0;
    while i < cs.len()
        invariant
            cs@ == s@,
            i <= cs@.len(),
            out@ + escape_from(s@, i as int) == seq!['"'] + escape_chars(s@),
        decreases cs@.len() - i,
    {
        let ghost out0 = out@;
        let c = cs[i];
        if c == '"' || c == '\\' {
            push_char(&mut out, '\\');
            push_char(&mut out, c);
        } else {
            push_char(&mut out, c);
        }
        proof {
            assert(out@ =~= out0 + escape_char(c));
            assert(escape_from(s@, i as int) == escape_char(c) + escape_from(s@, i + 1));
            assert(out@ + escape_from(s@, i + 1) =~= out0 + escape_from(s@, i as int));
        }
        i += 1;
    }
    push_char(&mut out, '"');
    proof {
        assert(escape_from(s@, s@.len() as int) == Seq::<char>::empty());
        assert(out@ =~= quoted(s@));
    }
    out
}

/// Every `\n#` in `s` turned into `\n##`, so each markdown heading in a
/// challenge body drops one level; the rest of the text is unchanged.
pub fn demote_headings(s: &str) -> (r: String)
    ensures
        r@ == demoted(s@),
{
    let cs = str_chars(s);
    let n = cs.len();
    let mut out = String::new();
    let mut i: usize = 0;
    while i < n
        invariant
            cs@ == s@,
            n == cs@.len(),
            i <= n,
            out@ + demoted_from(s@, i as int) == demoted(s@),
        decreases n - i,
    {
        let ghost out0 = out@;
        if i + 1 < n && cs[i] == '\n' && cs[i + 1] == '#' {
            push_char(&mut out, '\n');
            push_char(&mut out, '#');
            push_char(&mut out, '#');
            proof {
                assert(out@ =~= out0 + seq!['\n', '#', '#']);
                assert(demoted_from(s@, i as int) == seq!['\n', '#', '#'] + demoted_from(
                    s@,
                    i + 2,
                ));
                assert(out@ + demoted_from(s@, i + 2) =~= out0 + demoted_from(s@, i as int));
            }
            i += 2;
        } else {
            push_char(&mut out, cs[i]);
            proof {
                assert(out@ =~= out0 + seq![s@[i as int]]);
                assert(demoted_from(s@, i as int) == seq![s@[i as int]] + demoted_from(
                    s@,
                    i + 1,
                ));
                assert(out@ + demoted_from(s@, i + 1) =~= out0 + demoted_from(s@, i as int));
            }
            i += 1;
        }
    }
    proof {
        assert(demoted_from(s@, n as int) == Seq::<char>::empty());
        assert(out@ =~= demoted(s@));
    }
    out
}

/// Each string of `items` quoted with escapes and the results joined by
/// commas, with no trailing comma; an empty list gives the empty string.
pub fn join_quoted_strings(items: &Vec<String>) -> (r: String)
    ensures
        r@ == joined_quoted(views_of(items@)),
{
    let ghost vw = views_of(items@);
    let n = items.len();
    let mut out = String::new();
    let mut i: usize = 0;
    while i < n
        invariant
            vw == views_of(items@),
            n == items@.len(),
            i <= n,
            out@ + joined_quoted_from(vw, i as int) == joined_quoted(vw),
        decreases n - i,
    {
        let ghost out0 = out@;
        let q = quote_str(items[i].as_str());
        out.append(q.as_str());
        if i + 1 < n {
            push_char(&mut out, ',');
            proof {
                assert(out@ =~= out0 + quoted(vw[i as int]) + seq![',']);
                assert(joined_quoted_from(vw, i as int) == quoted(vw[i as int]) + seq![',']
                    + joined_quoted_from(vw, i + 1));
                assert(out@ + joined_quoted_from(vw, i + 1) =~= out0 + joined_quoted_from(
                    vw,
                    i as int,
                ));
            }
        } else {
            proof {
                assert(out@ =~= out0 + quoted(vw[i as int]));
                assert(joined_quoted_from(vw, i as int) == quoted(vw[i as int]));
                assert(joined_quoted_from(vw, i + 1) == Seq::<char>::empty());
                assert(out@ + joined_quoted_from(vw, i + 1) =~= out0 + joined_quoted_from(
                    vw,
                    i as int,
                ));
            }
        }
        i += 1;
    }
    proof {
        assert(joined_quoted_from(vw, n as int) == Seq::<char>::empty());
        assert(out@ =~= joined_quoted(vw));
    }
    out
}

/// Whether `s` and `pat` match at offset `k` of `s`.
fn matches_at(s: &Vec<char>, pat: &Vec<char>, k: usize) -> (r: bool)
    requires
        k + pat@.len() <= s@.len(),
    ensures
        r == (s@.subrange(k as int, k + pat@.len()) == pat@),
{
    let sn = s.len();
    let m = pat.len();
    let mut j: usize = 0;
    while j < m
        invariant
            sn == s@.len(),
            m == pat@.len(),
            k + m <= sn,
            j <= m,
            forall|j2: int| 0 <= j2 < j ==> s@[k + j2] == pat@[j2],
        decreases m - j,
    {
        if s[k + j] != pat[j] {
            proof {
                assert(s@.subrange(k as int, k + pat@.len())[j as int] == s@[k + j]);
            }
            return false;
        }
        j += 1;
    }
    proof {
        assert(s@.subrange(k as int, k + pat@.len()) =~= pat@);
    }
    true
}

/// Whether `pat` occurs anywhere in `s` as a contiguous substring.
pub fn str_has_substring(s: &str, pat: &str) -> (r: bool)
    ensures
        r == has_substring(s@, pat@),
{
    let sv = str_chars(s);
    let pv = str_chars(pat);
    let n = sv.len();
    let m = pv.len();
    if m > n {
        proof {
            assert(!has_substring(s@, pat@));
        }
        return false;
    }
    if m == 0 {
        proof {
            assert(s@.subrange(0, 0 + pat@.len() as int) =~= pat@);
            assert(has_substring(s@, pat@));
        }
        return true;
    }
    let mut k: usize = 0;
    while k <= n - m
        invariant
            sv@ == s@,
            pv@ == pat@,
            n == s@.len(),
            m == pat@.len(),
            1 <= m <= n,
            k <= n - m + 1,
            forall|k2: int|
                0 <= k2 < k ==> #[trigger] s@.subrange(k2, k2 + pat@.len() as int) != pat@,
        decreases n - m - k + 1,
    {
        if matches_at(&sv, &pv, k) {
            return true;
        }
        k += 1;
    }
    proof {
        assert(!has_substring(s@, pat@));
    }
    false
}

} // verus!
