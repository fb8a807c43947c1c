//! The front matter block that every produced page starts with, in one of
//! two dialects, with an exact character-level specification.

use vstd::prelude::*;
use vstd::string::StringExecFns;
use crate::text::escape_char;
use crate::text::escape_chars;
use crate::text::escape_from;
use crate::text::join_quoted_strings;
use crate::text::joined_quoted;
use crate::text::joined_quoted_from;
use crate::text::quoted;
use crate::text::str_eq;
use crate::text::views_of;

verus! {

/// The two supported front matter dialects.
#[derive(Clone, Copy, Debug, PartialEq, Eq, Structural)]
pub enum OutputType {
    /// Title and date on top, tags nested under a taxonomies table; authors
    /// are not emitted.
    Zola,
    /// Title, date, tags and authors as flat fields, plus a fixed layout
    /// marker.
    Hugo,
}

/// The front matter block: title, date and a quoted tag list, and for the
/// Hugo dialect also a quoted author list and a fixed layout line. The block
/// ends with the closing delimiter and two blank lines.
pub open spec fn spec_front_matter(
    name: Seq<char>,
    date: Seq<char>,
    tags: Seq<Seq<char>>,
    authors: Seq<Seq<char>>,
    output_type: OutputType,
) -> Seq<char> {
    match output_type {
        OutputType::Zola => "+++\ntitle=\""@ + name + "\"\ndate = "@ + date
            + "\n\n[taxonomies]\ntags = ["@ + joined_quoted(tags) + "]\n+++\n\n\n"@,
        OutputType::Hugo => "+++\ntitle=\""@ + name + "\"\ndate = "@ + date + "\ntags = ["@
            + joined_quoted(tags) + "]\nauthors = ["@ + joined_quoted(authors)
            + "]\nlayout = \"post\"\n+++\n\n\n"@,
    }
}

impl OutputType {
    /// The dialect a command-line value selects: exactly `"zola"` and
    /// `"hugo"` are accepted; anything else is rejected with a message.
    pub fn from_str(s: &str) -> (r: Result<OutputType, &'static str>)
        ensures
            s@ == "zola"@ ==> r == Ok::<OutputType, &'static str>(OutputType::Zola),
            s@ == "hugo"@ ==> r == Ok::<OutputType, &'static str>(OutputType::Hugo),
            s@ != "zola"@ && s@ != "hugo"@ ==> (r matches Err(m) && m@
                == "type should be \"zola\" or \"hugo\""@),
    {
        proof {
            reveal_strlit("zola");
            reveal_strlit("hugo");
            assert("zola"@.len() == 4);
            assert("hugo"@.len() == 4);
            assert("zola"@[0] == 'z');
            assert("hugo"@[0] == 'h');
            assert("zola"@ != "hugo"@);
        }
        if str_eq(s, "zola") {
            Ok(OutputType::Zola)
        } else if str_eq(s, "hugo") {
            Ok(OutputType::Hugo)
        } else {
            Err("type should be \"zola\" or \"hugo\"")
        }
    }
}

/// The front matter for the given title, date, tag and author lists: the
/// Zola dialect ignores the authors, the Hugo dialect emits both lists.
pub fn make_front_matter(
    name: &str,
    date: &str,
    tags: &Vec<String>,
    authors: &Vec<String>,
    output_type: OutputType,
) -> (r: String)
    ensures
        r@ == spec_front_matter(name@, date@, views_of(tags@), views_of(authors@), output_type),
{
    let mut out = String::new();
    match output_type {
        OutputType::Zola => {
            out.append("+++\ntitle=\"");
            out.append(name);
            out.append("\"\ndate = ");
            out.append(date);
            out.append("\n\n[taxonomies]\ntags = [");
            let t = join_quoted_strings(tags);
            out.append(t.as_str());
            out.append("]\n+++\n\n\n");
            proof {
                assert(out@ =~= spec_front_matter(
                    name@,
                    date@,
                    views_of(tags@),
                    views_of(authors@),
                    output_type,
                ));
            }
        },
        OutputType::Hugo => {
            out.append("+++\ntitle=\"");
            out.append(name);
            out.append("\"\ndate = ");
            out.append(date);
            out.append("\ntags = [");
            let t = join_quoted_strings(tags);
            out.append(t.as_str());
            out.append("]\nauthors = [");
            let a = join_quoted_strings(authors);
            out.append(a.as_str());
            out.append("]\nlayout = \"post\"\n+++\n\n\n");
            proof {
                assert(out@ =~= spec_front_matter(
                    name@,
                    date@,
                    views_of(tags@),
                    views_of(authors@),
                    output_type,
                ));
            }
        },
    }
    out
}

/// Escaping changes nothing in a string that holds neither a quote nor a
/// backslash.
pub proof fn lemma_escape_plain_from(s: Seq<char>, i: int)
    requires
        forall|j: int| 0 <= j < s.len() ==> s[j] != '"' && s[j] != '\\',
        0 <= i <= s.len(),
    ensures
        escape_from(s, i) == s.skip(i),
    decreases s.len() - i,
{
    if i >= s.len() {
        assert(escape_from(s, i) =~= s.skip(i));
    } else {
        lemma_escape_plain_from(s, i + 1);
        assert(escape_char(s[i]) == seq![s[i]]);
        assert(escape_from(s, i) =~= s.skip(i));
    }
}

/// A law of the renderer: a tag or author list of length zero renders as the
/// empty sequence between the brackets, so the front matter holds an empty
/// array literal rather than failing or dropping the field.
pub proof fn lemma_empty_list_renders_empty(
    name: Seq<char>,
    date: Seq<char>,
    authors: Seq<Seq<char>>,
)
    ensures
        joined_quoted(Seq::<Seq<char>>::empty()) == Seq::<char>::empty(),
        spec_front_matter(name, date, Seq::<Seq<char>>::empty(), authors, OutputType::Zola)
            == "+++\ntitle=\""@ + name + "\"\ndate = "@ + date
            + "\n\n[taxonomies]\ntags = []\n+++\n\n\n"@,
{
    assert(joined_quoted(Seq::<Seq<char>>::empty()) == Seq::<char>::empty());
    reveal_strlit("\n\n[taxonomies]\ntags = [");
    reveal_strlit("]\n+++\n\n\n");
    reveal_strlit("\n\n[taxonomies]\ntags = []\n+++\n\n\n");
    assert("\n\n[taxonomies]\ntags = ["@ + joined_quoted(Seq::<Seq<char>>::empty())
        + "]\n+++\n\n\n"@ =~= "\n\n[taxonomies]\ntags = []\n+++\n\n\n"@);
    assert(spec_front_matter(name, date, Seq::<Seq<char>>::empty(), authors, OutputType::Zola)
        =~= "+++\ntitle=\""@ + name + "\"\ndate = "@ + date
        + "\n\n[taxonomies]\ntags = []\n+++\n\n\n"@);
}

/// A law of the renderer: in either dialect the title that the front
/// matter carries is the name handed in, standing right after the opening
/// delimiter and quote.
pub proof fn lemma_front_matter_title(
    name: Seq<char>,
    date: Seq<char>,
    tags: Seq<Seq<char>>,
    authors: Seq<Seq<char>>,
    output_type: OutputType,
)
    ensures
        ({
            let fm = spec_front_matter(name, date, tags, authors, output_type);
            fm.subrange(11, 11 + name.len() as int) == name
        }),
{
    reveal_strlit("+++\ntitle=\"");
    assert("+++\ntitle=\""@.len() == 11);
    let fm = spec_front_matter(name, date, tags, authors, output_type);
    match output_type {
        OutputType::Zola => {
            assert(fm.subrange(11, 11 + name.len() as int) =~= name);
        },
        OutputType::Hugo => {
            assert(fm.subrange(11, 11 + name.len() as int) =~= name);
        },
    }
}

/// A law of the renderer: the one fixed section tag renders exactly as the
/// quoted word, so a section front matter always carries this tag array and
/// nothing from the per-challenge tags.
pub proof fn lemma_single_plain_tag_renders_quoted(tag: Seq<char>)
    requires
        forall|j: int| 0 <= j < tag.len() ==> tag[j] != '"' && tag[j] != '\\',
    ensures
        joined_quoted(seq![tag]) == seq!['"'] + tag + seq!['"'],
{
    let items = seq![tag];
    assert(joined_quoted_from(items, 0) == quoted(tag));
    lemma_escape_plain_from(tag, 0);
    assert(tag.skip(0) =~= tag);
    assert(quoted(tag) == seq!['"'] + escape_chars(tag) + seq!['"']);
}

} // verus!
