//! The file-selection rules: which input folders are processed and which
//! files inside a writeup folder count as assets to copy.

use vstd::prelude::*;
use vstd::string::StrSliceExecFns;
use crate::text::has_substring;
use crate::text::str_chars;
use crate::text::str_eq;
use crate::text::str_has_substring;

verus! {

/// A folder is processed unless its name holds the version-control marker.
pub open spec fn spec_folder_included(name: Seq<char>) -> bool {
    !has_substring(name, ".git"@)
}

/// Whether an immediate child folder of the input root takes part: any
/// folder whose name contains `.git` is left out.
pub fn folder_included(name: &str) -> (r: bool)
    ensures
        r == spec_folder_included(name@),
{
    !str_has_substring(name, ".git")
}

/// A law of the scanner: a folder whose name holds the version-control
/// marker is never selected, so nothing of it is ever written under the
/// output root.
pub proof fn lemma_marked_folder_stays_out(name: Seq<char>)
    ensures
        has_substring(name, ".git"@) ==> !spec_folder_included(name),
{
}

/// The index of the last `.` strictly before position `i`, or `-1`.
pub open spec fn last_dot_before(s: Seq<char>, i: int) -> int
    decreases i,
{
    if i <= 0 || i > s.len() {
        -1
    } else if s[i - 1] == '.' {
        i - 1
    } else {
        last_dot_before(s, i - 1)
    }
}

/// The extension of a file name: what follows the last dot, absent when
/// there is no dot or when the only dot opens a hidden file's name.
pub open spec fn extension_of(s: Seq<char>) -> Option<Seq<char>> {
    let d = last_dot_before(s, s.len() as int);
    if d <= 0 {
        None
    } else {
        Some(s.subrange(d + 1, s.len() as int))
    }
}

/// A file inside a writeup folder is an asset — copied verbatim to the
/// output — unless it is the metadata descriptor itself or a markdown file.
pub open spec fn spec_is_asset_name(name: Seq<char>) -> bool {
    name != "meta.toml"@ && extension_of(name) != Some("md"@)
}

/// Whether a file of the given name is copied as an asset.
pub fn is_asset_name(name: &str) -> (r: bool)
    ensures
        r == spec_is_asset_name(name@),
{
    if str_eq(name, "meta.toml") {
        return false;
    }
    let cs = str_chars(name);
    let n = cs.len();
    let mut j: usize = n;
    while j > 0 && cs[j - 1] != '.'
        invariant
            cs@ == name@,
            n == cs@.len(),
            j <= n,
            last_dot_before(name@, n as int) == last_dot_before(name@, j as int),
        decreases j,
    {
        j -= 1;
    }
    proof {
        assert(j == 0 || name@[j - 1] == '.');
    }
    proof {
        reveal_strlit("md");
        assert("md"@.len() == 2);
        assert("md"@[0] == 'm');
        assert("md"@[1] == 'd');
    }
    if j <= 1 {
        // no dot at all, or only a leading dot: no extension
        proof {
            assert(last_dot_before(name@, j as int) <= 0);
        }
        return true;
    }
    let d = j - 1;
    proof {
        assert(name@[d as int] == '.');
        assert(last_dot_before(name@, j as int) == d as int);
    }
    if n - d - 1 != 2 {
        proof {
            if extension_of(name@) is Some {
                assert(extension_of(name@)->0.len() == n - d - 1);
            }
        }
        return true;
    }
    let e0 = cs[d + 1];
    let e1 = cs[d + 2];
    let r = !(e0 == 'm' && e1 == 'd');
    proof {
        let ext = name@.subrange(d + 1, n as int);
        assert(ext.len() == 2 && ext[0] == name@[d + 1] && ext[1] == name@[d + 2]);
        if e0 == 'm' && e1 == 'd' {
            assert(ext =~= "md"@);
        } else {
            assert(ext != "md"@);
        }
    }
    r
}

} // verus!
