//! The page assembler: from a parsed descriptor, the challenge contents
//! that could be read, the author list and the dialect, it builds the
//! section index page and one page per resolved challenge.

use vstd::prelude::*;
use vstd::string::StringExecFns;
use crate::front_matter::OutputType;
use crate::front_matter::make_front_matter;
use crate::front_matter::spec_front_matter;
use crate::meta::CTFMeta;
use crate::meta::CTFMetaV;
use crate::meta::ChallengeMetaV;
use crate::front_matter::lemma_single_plain_tag_renders_quoted;
use crate::text::clone_strings;
use crate::text::demote_headings;
use crate::text::demoted;
use crate::text::has_substring;
use crate::text::joined_quoted;
use crate::text::lemma_substring_concat_right;
use crate::text::lemma_substring_prefix;
use crate::text::views_of;

verus! {

/// The views of a list of contents as read: one entry per challenge, absent
/// where the content file could not be read.
pub open spec fn content_views(v: Seq<Option<String>>) -> Seq<Option<Seq<char>>> {
    Seq::new(
        v.len(),
        |i: int|
            match v[i] {
                Some(s) => Some(s@),
                None => None,
            },
    )
}

/// A challenge whose content file was found: its key, title, tag list
/// (empty where the descriptor declared none) and raw content.
pub struct ResolvedV {
    pub key: Seq<char>,
    pub name: Seq<char>,
    pub tags: Seq<Seq<char>>,
    pub content: Seq<char>,
}

/// A declared tag list, or the empty list where none was declared.
pub open spec fn tags_or_empty(t: Option<Seq<Seq<char>>>) -> Seq<Seq<char>> {
    match t {
        Some(x) => x,
        None => Seq::empty(),
    }
}

/// The challenges from position `i` on whose content is present, in
/// declaration order; a challenge whose content is absent is dropped and
/// surfaces nowhere else.
pub open spec fn resolved_from(
    ch: Seq<(Seq<char>, ChallengeMetaV)>,
    co: Seq<Option<Seq<char>>>,
    i: int,
) -> Seq<ResolvedV>
    decreases ch.len() - i,
{
    if i < 0 || i >= ch.len() {
        Seq::empty()
    } else {
        match co[i] {
            None => resolved_from(ch, co, i + 1),
            Some(c) => seq![
                ResolvedV {
                    key: ch[i].0,
                    name: ch[i].1.name,
                    tags: tags_or_empty(ch[i].1.tags),
                    content: c,
                },
            ] + resolved_from(ch, co, i + 1),
        }
    }
}

/// One challenge's block on the section page: a top-level heading with the
/// challenge title, then the content with its own headings demoted a level.
pub open spec fn spec_challenge_block(name: Seq<char>, content: Seq<char>) -> Seq<char> {
    "# "@ + name + "\n"@ + demoted(content)
}

/// The blocks of the resolved challenges from position `i` on, joined by a
/// newline.
pub open spec fn blocks_from(rs: Seq<ResolvedV>, i: int) -> Seq<char>
    decreases rs.len() - i,
{
    if i < 0 || i >= rs.len() {
        Seq::empty()
    } else if i == rs.len() - 1 {
        spec_challenge_block(rs[i].name, rs[i].content)
    } else {
        spec_challenge_block(rs[i].name, rs[i].content) + "\n"@ + blocks_from(rs, i + 1)
    }
}

/// The description with the read-more marker appended, or nothing where the
/// descriptor declared none.
pub open spec fn spec_description_part(d: Option<Seq<char>>) -> Seq<char> {
    match d {
        None => Seq::empty(),
        Some(x) => x + "\n<!-- more -->\n"@,
    }
}

/// The one fixed tag every section page carries.
pub open spec fn section_tag() -> Seq<char> {
    "ctf-writeups"@
}

/// The section index page: front matter with the collection's title and
/// date, the fixed section tag and the supplied authors, then the optional
/// description, then every resolved challenge's block.
pub open spec fn spec_section_page(
    m: CTFMetaV,
    co: Seq<Option<Seq<char>>>,
    authors: Seq<Seq<char>>,
    t: OutputType,
) -> Seq<char> {
    spec_front_matter(m.name, m.date, seq![section_tag()], authors, t) + spec_description_part(
        m.description,
    ) + blocks_from(resolved_from(m.challenges, co, 0), 0)
}

/// A challenge's own page: front matter with the challenge's title and tags
/// and the collection's date, then the content exactly as read.
pub open spec fn spec_challenge_page(
    r: ResolvedV,
    date: Seq<char>,
    authors: Seq<Seq<char>>,
    t: OutputType,
) -> Seq<char> {
    spec_front_matter(r.name, date, r.tags, authors, t) + r.content
}

/// The pages of the resolved challenges from position `i` on, each under
/// its key.
pub open spec fn pages_from(
    rs: Seq<ResolvedV>,
    date: Seq<char>,
    authors: Seq<Seq<char>>,
    t: OutputType,
    i: int,
) -> Seq<(Seq<char>, Seq<char>)>
    decreases rs.len() - i,
{
    if i < 0 || i >= rs.len() {
        Seq::empty()
    } else {
        seq![(rs[i].key, spec_challenge_page(rs[i], date, authors, t))] + pages_from(
            rs,
            date,
            authors,
            t,
            i + 1,
        )
    }
}

/// The views of the produced challenge pages.
pub open spec fn pages_views(v: Seq<(String, String)>) -> Seq<(Seq<char>, Seq<char>)> {
    Seq::new(v.len(), |i: int| (v[i].0@, v[i].1@))
}

/// Everything written for one writeup folder: the section index page and
/// one page per resolved challenge, keyed by the challenge key.
pub struct FolderPages {
    pub index_page: String,
    pub challenge_pages: Vec<(String, String)>,
}

/// A challenge whose content was read, with owned copies of its fields.
pub struct Resolved {
    pub key: String,
    pub name: String,
    pub tags: Vec<String>,
    pub content: String,
}

impl View for Resolved {
    type V = ResolvedV;

    open spec fn view(&self) -> ResolvedV {
        ResolvedV {
            key: self.key@,
            name: self.name@,
            tags: views_of(self.tags@),
            content: self.content@,
        }
    }
}

/// The views of a list of resolved challenges.
spec fn resolved_views(v: Seq<Resolved>) -> Seq<ResolvedV> {
    Seq::new(v.len(), |i: int| v[i]@)
}

/// The challenges from position `i` on whose content is present.
fn resolve_from(meta: &CTFMeta, contents: &Vec<Option<String>>, i: usize) -> (r: Vec<Resolved>)
    requires
        contents@.len() == meta.challenges@.len(),
        i <= meta.challenges@.len(),
    ensures
        resolved_views(r@) == resolved_from(meta@.challenges, content_views(contents@), i as int),
    decreases meta.challenges@.len() - i,
{
    let ghost chv = meta@.challenges;
    let ghost cov = content_views(contents@);
    if i >= meta.challenges.len() {
        let r: Vec<Resolved> = Vec::new();
        proof {
            assert(resolved_views(r@) =~= resolved_from(chv, cov, i as int));
        }
        r
    } else {
        let mut rest = resolve_from(meta, contents, i + 1);
        match &contents[i] {
            None => {
                proof {
                    assert(cov[i as int] is None);
                }
                rest
            },
            Some(c) => {
                let pair = &meta.challenges[i];
                let item = Resolved {
                    key: pair.0.clone(),
                    name: pair.1.name.clone(),
                    tags: match &pair.1.tags {
                        Some(t) => clone_strings(t),
                        None => Vec::new(),
                    },
                    content: c.clone(),
                };
                proof {
                    assert(item@ == resolved_from(chv, cov, i as int)[0]) by {
                        assert(cov[i as int] == Some(c@));
                        assert(chv[i as int].0 == pair.0@);
                        assert(chv[i as int].1.name == pair.1.name@);
                        assert(item@.tags =~= tags_or_empty(chv[i as int].1.tags));
                    };
                }
                let mut out: Vec<Resolved> = Vec::new();
                out.push(item);
                out.append(&mut rest);
                proof {
                    assert(resolved_views(out@) =~= resolved_from(chv, cov, i as int));
                }
                out
            },
        }
    }
}

/// The section page body from resolved challenge `i` on.
fn build_blocks_from(rs: &Vec<Resolved>, i: usize) -> (r: String)
    requires
        i <= rs@.len(),
    ensures
        r@ == blocks_from(resolved_views(rs@), i as int),
    decreases rs@.len() - i,
{
    let ghost rv = resolved_views(rs@);
    if i >= rs.len() {
        let r = String::new();
        return r;
    }
    let mut out = String::new();
    out.append("# ");
    out.append(rs[i].name.as_str());
    out.append("\n");
    let d = demote_headings(rs[i].content.as_str());
    out.append(d.as_str());
    proof {
        assert(out@ =~= spec_challenge_block(rv[i as int].name, rv[i as int].content));
    }
    if i + 1 < rs.len() {
        out.append("\n");
        let rest = build_blocks_from(rs, i + 1);
        out.append(rest.as_str());
        proof {
            assert(out@ =~= blocks_from(rv, i as int));
        }
    } else {
        proof {
            assert(blocks_from(rv, i as int) == spec_challenge_block(
                rv[i as int].name,
                rv[i as int].content,
            ));
        }
    }
    out
}

/// The pages of the resolved challenges from position `i` on.
fn build_pages_from(
    rs: &Vec<Resolved>,
    date: &str,
    authors: &Vec<String>,
    t: OutputType,
    i: usize,
) -> (r: Vec<(String, String)>)
    requires
        i <= rs@.len(),
    ensures
        pages_views(r@) == pages_from(
            resolved_views(rs@),
            date@,
            views_of(authors@),
            t,
            i as int,
        ),
    decreases rs@.len() - i,
{
    let ghost rv = resolved_views(rs@);
    if i >= rs.len() {
        let r: Vec<(String, String)> = Vec::new();
        proof {
            assert(pages_views(r@) =~= pages_from(rv, date@, views_of(authors@), t, i as int));
        }
        return r;
    }
    let mut page = make_front_matter(
        rs[i].name.as_str(),
        date,
        &rs[i].tags,
        authors,
        t,
    );
    page.append(rs[i].content.as_str());
    proof {
        assert(page@ =~= spec_challenge_page(rv[i as int], date@, views_of(authors@), t));
    }
    let key = rs[i].key.clone();
    let mut rest = build_pages_from(rs, date, authors, t, i + 1);
    let mut out: Vec<(String, String)> = Vec::new();
    out.push((key, page));
    out.append(&mut rest);
    proof {
        assert(pages_views(out@) =~= pages_from(rv, date@, views_of(authors@), t, i as int));
    }
    out
}

/// The pages written for one writeup folder: the section index page, and
/// one page per challenge whose content is present; a challenge whose
/// content is absent gets no page and no block on the index page.
pub fn build_folder_pages(
    meta: &CTFMeta,
    contents: &Vec<Option<String>>,
    authors: &Vec<String>,
    output_type: OutputType,
) -> (r: FolderPages)
    requires
        contents@.len() == meta.challenges@.len(),
    ensures
        r.index_page@ == spec_section_page(
            meta@,
            content_views(contents@),
            views_of(authors@),
            output_type,
        ),
        pages_views(r.challenge_pages@) == pages_from(
            resolved_from(meta@.challenges, content_views(contents@), 0),
            meta@.date,
            views_of(authors@),
            output_type,
            0,
        ),
{
    let ghost cov = content_views(contents@);
    let rs = resolve_from(meta, contents, 0);
    let mut tags: Vec<String> = Vec::new();
    tags.push(String::from_str("ctf-writeups"));
    proof {
        assert(views_of(tags@) =~= seq![section_tag()]);
    }
    let mut index = make_front_matter(
        meta.name.as_str(),
        meta.date.as_str(),
        &tags,
        authors,
        output_type,
    );
    match &meta.description {
        Some(d) => {
            index.append(d.as_str());
            index.append("\n<!-- more -->\n");
        },
        None => {},
    }
    proof {
        assert(index@ =~= spec_front_matter(
            meta@.name,
            meta@.date,
            seq![section_tag()],
            views_of(authors@),
            output_type,
        ) + spec_description_part(meta@.description));
    }
    let body = build_blocks_from(&rs, 0);
    index.append(body.as_str());
    proof {
        assert(index@ =~= spec_section_page(meta@, cov, views_of(authors@), output_type));
    }
    let pages = build_pages_from(&rs, meta.date.as_str(), authors, output_type, 0);
    FolderPages { index_page: index, challenge_pages: pages }
}

/// The file name a challenge's page is written under, and equally the name
/// of the content file its key points at: the key with the markdown
/// extension.
pub fn md_file_name(key: &str) -> (r: String)
    ensures
        r@ == key@ + ".md"@,
{
    let mut out = String::from_str(key);
    out.append(".md");
    out
}

/// A law of the assembler: the section page starts with a front matter
/// built from the collection's title and date, the one fixed section tag
/// and the supplied authors — nothing of the per-challenge tags reaches it.
pub proof fn lemma_section_front_matter(
    m: CTFMetaV,
    co: Seq<Option<Seq<char>>>,
    authors: Seq<Seq<char>>,
    t: OutputType,
)
    ensures
        ({
            let fm = spec_front_matter(m.name, m.date, seq![section_tag()], authors, t);
            let page = spec_section_page(m, co, authors, t);
            fm.len() <= page.len() && page.subrange(0, fm.len() as int) == fm
        }),
        joined_quoted(seq![section_tag()]) == "\"ctf-writeups\""@,
{
    let fm = spec_front_matter(m.name, m.date, seq![section_tag()], authors, t);
    let page = spec_section_page(m, co, authors, t);
    assert(page.subrange(0, fm.len() as int) =~= fm);
    reveal_strlit("ctf-writeups");
    reveal_strlit("\"ctf-writeups\"");
    assert forall|j: int| 0 <= j < section_tag().len() implies section_tag()[j] != '"'
        && section_tag()[j] != '\\' by {
        assert(section_tag().len() == 12);
    }
    lemma_single_plain_tag_renders_quoted(section_tag());
    assert(seq!['"'] + section_tag() + seq!['"'] =~= "\"ctf-writeups\""@);
}

/// A law of the assembler: a resolved challenge's own page is its front
/// matter followed by the content byte for byte — no heading demotion, no
/// other change.
pub proof fn lemma_challenge_page_keeps_content(
    r: ResolvedV,
    date: Seq<char>,
    authors: Seq<Seq<char>>,
    t: OutputType,
)
    ensures
        ({
            let fm = spec_front_matter(r.name, date, r.tags, authors, t);
            let page = spec_challenge_page(r, date, authors, t);
            page.len() == fm.len() + r.content.len() && page.subrange(
                fm.len() as int,
                page.len() as int,
            ) == r.content
        }),
{
    let fm = spec_front_matter(r.name, date, r.tags, authors, t);
    let page = spec_challenge_page(r, date, authors, t);
    assert(page.subrange(fm.len() as int, page.len() as int) =~= r.content);
}

/// The block of every resolved challenge at or after position `i` stands in
/// the joined body.
proof fn lemma_blocks_contain(rs: Seq<ResolvedV>, i: int, j: int)
    requires
        0 <= i <= j < rs.len(),
    ensures
        has_substring(blocks_from(rs, i), spec_challenge_block(rs[j].name, rs[j].content)),
    decreases j - i,
{
    let b = spec_challenge_block(rs[i].name, rs[i].content);
    if i == j {
        if i == rs.len() - 1 {
            assert(blocks_from(rs, i) == b);
            assert(b.subrange(0, b.len() as int) =~= b);
            lemma_substring_prefix(blocks_from(rs, i), b);
        } else {
            assert(blocks_from(rs, i) == b + "\n"@ + blocks_from(rs, i + 1));
            assert((b + "\n"@ + blocks_from(rs, i + 1)).subrange(0, b.len() as int) =~= b);
            lemma_substring_prefix(blocks_from(rs, i), b);
        }
    } else {
        lemma_blocks_contain(rs, i + 1, j);
        let p = spec_challenge_block(rs[j].name, rs[j].content);
        lemma_substring_concat_right(b + "\n"@, blocks_from(rs, i + 1), p);
        assert(b + "\n"@ + blocks_from(rs, i + 1) =~= (b + "\n"@) + blocks_from(rs, i + 1));
    }
}

/// The resolved list built from position `i0` holds an entry for every
/// challenge at or after `i0` whose content is present.
proof fn lemma_resolved_contains(
    ch: Seq<(Seq<char>, ChallengeMetaV)>,
    co: Seq<Option<Seq<char>>>,
    i0: int,
    i: int,
)
    requires
        co.len() == ch.len(),
        0 <= i0 <= i < ch.len(),
        co[i] is Some,
    ensures
        exists|j: int|
            0 <= j < resolved_from(ch, co, i0).len() && #[trigger] resolved_from(ch, co, i0)[j]
                == (ResolvedV {
                key: ch[i].0,
                name: ch[i].1.name,
                tags: tags_or_empty(ch[i].1.tags),
                content: co[i]->0,
            }),
    decreases i - i0,
{
    let item = ResolvedV {
        key: ch[i].0,
        name: ch[i].1.name,
        tags: tags_or_empty(ch[i].1.tags),
        content: co[i]->0,
    };
    if i0 == i {
        assert(resolved_from(ch, co, i0)[0] == item);
    } else {
        lemma_resolved_contains(ch, co, i0 + 1, i);
        let j = choose|j: int|
            0 <= j < resolved_from(ch, co, i0 + 1).len() && #[trigger] resolved_from(
                ch,
                co,
                i0 + 1,
            )[j] == item;
        match co[i0] {
            None => {
                assert(resolved_from(ch, co, i0)[j] == item);
            },
            Some(_) => {
                assert(resolved_from(ch, co, i0)[j + 1] == item);
            },
        }
    }
}

/// A law of the assembler: for every challenge whose content is present,
/// the section page holds that challenge's block — its title as a heading,
/// then the content with every heading demoted one level.
pub proof fn lemma_index_holds_demoted_block(
    m: CTFMetaV,
    co: Seq<Option<Seq<char>>>,
    authors: Seq<Seq<char>>,
    t: OutputType,
    i: int,
)
    requires
        co.len() == m.challenges.len(),
        0 <= i < m.challenges.len(),
        co[i] is Some,
    ensures
        has_substring(
            spec_section_page(m, co, authors, t),
            spec_challenge_block(m.challenges[i].1.name, co[i]->0),
        ),
{
    let rs = resolved_from(m.challenges, co, 0);
    let item = ResolvedV {
        key: m.challenges[i].0,
        name: m.challenges[i].1.name,
        tags: tags_or_empty(m.challenges[i].1.tags),
        content: co[i]->0,
    };
    lemma_resolved_contains(m.challenges, co, 0, i);
    let j = choose|j: int| 0 <= j < rs.len() && #[trigger] rs[j] == item;
    lemma_blocks_contain(rs, 0, j);
    let head = spec_front_matter(m.name, m.date, seq![section_tag()], authors, t)
        + spec_description_part(m.description);
    let p = spec_challenge_block(m.challenges[i].1.name, co[i]->0);
    lemma_substring_concat_right(head, blocks_from(rs, 0), p);
    assert(spec_section_page(m, co, authors, t) =~= head + blocks_from(rs, 0));
}

/// Every key in the resolved list from `i0` on is the key of some challenge
/// at or after `i0` whose content is present.
proof fn lemma_resolved_keys(
    ch: Seq<(Seq<char>, ChallengeMetaV)>,
    co: Seq<Option<Seq<char>>>,
    i0: int,
)
    requires
        co.len() == ch.len(),
        0 <= i0,
    ensures
        forall|j: int|
            0 <= j < resolved_from(ch, co, i0).len() ==> exists|i: int|
                i0 <= i < ch.len() && co[i] is Some && (#[trigger] resolved_from(ch, co, i0)[j]).key
                    == ch[i].0,
    decreases ch.len() - i0,
{
    if i0 >= ch.len() {
    } else {
        lemma_resolved_keys(ch, co, i0 + 1);
        assert forall|j: int| 0 <= j < resolved_from(ch, co, i0).len() implies exists|i: int|
            i0 <= i < ch.len() && co[i] is Some && (#[trigger] resolved_from(ch, co, i0)[j]).key
                == ch[i].0 by {
            match co[i0] {
                None => {
                    assert(resolved_from(ch, co, i0)[j] == resolved_from(ch, co, i0 + 1)[j]);
                    let i = choose|i: int|
                        i0 + 1 <= i < ch.len() && co[i] is Some && resolved_from(
                            ch,
                            co,
                            i0 + 1,
                        )[j].key == ch[i].0;
                    assert(co[i] is Some && resolved_from(ch, co, i0)[j].key == ch[i].0);
                },
                Some(_) => {
                    if j == 0 {
                        assert(co[i0] is Some && resolved_from(ch, co, i0)[0].key == ch[i0].0);
                    } else {
                        assert(resolved_from(ch, co, i0)[j] == resolved_from(ch, co, i0 + 1)[j
                            - 1]);
                        let i = choose|i: int|
                            i0 + 1 <= i < ch.len() && co[i] is Some && resolved_from(
                                ch,
                                co,
                                i0 + 1,
                            )[j - 1].key == ch[i].0;
                        assert(co[i] is Some && resolved_from(ch, co, i0)[j].key == ch[i].0);
                    }
                },
            }
        }
    }
}

/// The page list mirrors the resolved list entry for entry.
proof fn lemma_pages_index(
    rs: Seq<ResolvedV>,
    date: Seq<char>,
    authors: Seq<Seq<char>>,
    t: OutputType,
    i0: int,
    j: int,
)
    requires
        0 <= i0,
        i0 + j < rs.len(),
        0 <= j,
    ensures
        pages_from(rs, date, authors, t, i0).len() == rs.len() - i0,
        pages_from(rs, date, authors, t, i0)[j] == (
            rs[i0 + j].key,
            spec_challenge_page(rs[i0 + j], date, authors, t),
        ),
    decreases j,
{
    lemma_pages_len(rs, date, authors, t, i0);
    if j == 0 {
    } else {
        lemma_pages_index(rs, date, authors, t, i0 + 1, j - 1);
    }
}

/// The page list has one page per resolved challenge.
proof fn lemma_pages_len(
    rs: Seq<ResolvedV>,
    date: Seq<char>,
    authors: Seq<Seq<char>>,
    t: OutputType,
    i0: int,
)
    requires
        0 <= i0 <= rs.len(),
    ensures
        pages_from(rs, date, authors, t, i0).len() == rs.len() - i0,
    decreases rs.len() - i0,
{
    if i0 < rs.len() {
        lemma_pages_len(rs, date, authors, t, i0 + 1);
    }
}

/// Dropping challenge `i`, whose content is absent, leaves the resolved
/// tail from any position after `i` unchanged, up to the index shift.
proof fn lemma_resolved_drop_tail(
    ch: Seq<(Seq<char>, ChallengeMetaV)>,
    co: Seq<Option<Seq<char>>>,
    i: int,
    k: int,
)
    requires
        co.len() == ch.len(),
        0 <= i < ch.len(),
        i < k <= ch.len(),
    ensures
        resolved_from(ch, co, k) == resolved_from(ch.remove(i), co.remove(i), k - 1),
    decreases ch.len() - k,
{
    let ch2 = ch.remove(i);
    let co2 = co.remove(i);
    if k >= ch.len() {
        assert(resolved_from(ch, co, k) =~= resolved_from(ch2, co2, k - 1));
    } else {
        lemma_resolved_drop_tail(ch, co, i, k + 1);
        assert(ch2[k - 1] == ch[k]);
        assert(co2[k - 1] == co[k]);
    }
}

/// Dropping challenge `i`, whose content is absent, leaves the resolved
/// list from any position before `i` unchanged.
proof fn lemma_resolved_drop_prefix(
    ch: Seq<(Seq<char>, ChallengeMetaV)>,
    co: Seq<Option<Seq<char>>>,
    i: int,
    j: int,
)
    requires
        co.len() == ch.len(),
        0 <= i < ch.len(),
        co[i] is None,
        0 <= j <= i,
    ensures
        resolved_from(ch, co, j) == resolved_from(ch.remove(i), co.remove(i), j),
    decreases i - j,
{
    let ch2 = ch.remove(i);
    let co2 = co.remove(i);
    if j == i {
        lemma_resolved_drop_tail(ch, co, i, i + 1);
        assert(resolved_from(ch, co, i) == resolved_from(ch, co, i + 1));
    } else {
        lemma_resolved_drop_prefix(ch, co, i, j + 1);
        assert(ch2[j] == ch[j]);
        assert(co2[j] == co[j]);
    }
}

/// A law of the assembler: a challenge whose content file is absent leaves
/// no trace — the section page, and every challenge page, is exactly what
/// a descriptor without that challenge would have produced.
pub proof fn lemma_skipped_challenge_changes_nothing(
    m: CTFMetaV,
    co: Seq<Option<Seq<char>>>,
    authors: Seq<Seq<char>>,
    t: OutputType,
    i: int,
)
    requires
        co.len() == m.challenges.len(),
        0 <= i < m.challenges.len(),
        co[i] is None,
    ensures
        ({
            let m2 = CTFMetaV { challenges: m.challenges.remove(i), ..m };
            spec_section_page(m, co, authors, t) == spec_section_page(
                m2,
                co.remove(i),
                authors,
                t,
            ) && resolved_from(m.challenges, co, 0) == resolved_from(
                m2.challenges,
                co.remove(i),
                0,
            )
        }),
{
    lemma_resolved_drop_prefix(m.challenges, co, i, 0);
}

/// A law of the assembler: a challenge whose content file is absent yields
/// no page — no produced page carries its key.
pub proof fn lemma_skipped_challenge_has_no_page(
    m: CTFMetaV,
    co: Seq<Option<Seq<char>>>,
    date: Seq<char>,
    authors: Seq<Seq<char>>,
    t: OutputType,
    i: int,
)
    requires
        m.keys_unique(),
        co.len() == m.challenges.len(),
        0 <= i < m.challenges.len(),
        co[i] is None,
    ensures
        forall|j: int|
            0 <= j < pages_from(resolved_from(m.challenges, co, 0), date, authors, t, 0).len()
                ==> (#[trigger] pages_from(
                resolved_from(m.challenges, co, 0),
                date,
                authors,
                t,
                0,
            )[j]).0 != m.challenges[i].0,
{
    let rs = resolved_from(m.challenges, co, 0);
    let pages = pages_from(rs, date, authors, t, 0);
    lemma_resolved_keys(m.challenges, co, 0);
    lemma_pages_len(rs, date, authors, t, 0);
    assert forall|j: int| 0 <= j < pages.len() implies (#[trigger] pages[j]).0
        != m.challenges[i].0 by {
        lemma_pages_index(rs, date, authors, t, 0, j);
        assert(pages[j].0 == rs[j].key);
        let i2 = choose|i2: int|
            0 <= i2 < m.challenges.len() && co[i2] is Some && resolved_from(
                m.challenges,
                co,
                0,
            )[j].key == m.challenges[i2].0;
        assert(i2 != i);
        if m.challenges[i2].0 == m.challenges[i].0 {
            if i2 < i {
                assert(m.challenges[i2].0 != m.challenges[i].0);
            } else {
                assert(m.challenges[i].0 != m.challenges[i2].0);
            }
        }
    }
}

} // verus!
