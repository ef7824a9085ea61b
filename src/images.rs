//! The image references of a Markdown document.

use vstd::prelude::*;
use crate::text::{views};

verus! {

/// A Markdown image reference `![alt](url)`; its group holds the URL.
pub const IMAGE_PATTERN: &'static str = "!\\[[^\\]]*]\\(([^)]+)\\)";

/// For each match of `pattern` in `text`, left to right, what its first group
/// captured.
pub uninterp spec fn first_groups(pattern: Seq<char>, text: Seq<char>) -> Seq<Option<Seq<char>>>;

#[verifier::external_type_specification]
#[verifier::external_body]
pub struct ExRegexError(regex::Error);

pub open spec fn option_views(v: Seq<Option<String>>) -> Seq<Option<Seq<char>>> {
    v.map_values(|o: Option<String>| match o {
        Some(s) => Some(s@),
        None => None,
    })
}

/// Relies on `regex::Regex::new` and `Regex::captures_iter`: the matches of
/// `pattern` in `text`, left to right, and what the first group of each holds,
/// depend on the pattern and the text alone. `Regex::new` fails only on invalid
/// syntax or an exceeded size limit, neither of which the image pattern has.
#[verifier::external_body]
fn capture_first_groups(pattern: &str, text: &str) -> (r: Result<Vec<Option<String>>, regex::Error>)
    ensures
        r matches Ok(v) ==> option_views(v@) == first_groups(pattern@, text@),
        pattern@ == IMAGE_PATTERN@ ==> r is Ok,
{
    let re = regex::Regex::new(pattern)?;
    Ok(re.captures_iter(text).map(|c| c.get(1).map(|m| m.as_str().to_string())).collect())
}

/// The captured texts, each once, in the order of their first capture.
pub open spec fn distinct_present(caps: Seq<Option<Seq<char>>>) -> Seq<Seq<char>>
    decreases caps.len(),
{
    if caps.len() == 0 {
        Seq::empty()
    } else {
        let d = distinct_present(caps.drop_last());
        match caps.last() {
            Some(u) => if d.contains(u) {
                d
            } else {
                d.push(u)
            },
            None => d,
        }
    }
}

/// The URLs of the image references of `markdown`, each once, in the order of
/// their first appearance.
pub open spec fn image_references(markdown: Seq<char>) -> Seq<Seq<char>> {
    distinct_present(first_groups(IMAGE_PATTERN@, markdown))
}

/// Whether `v` holds a string with the text `u`.
fn holds(v: &Vec<String>, u: &String) -> (r: bool)
    ensures
        r == views(v@).contains(u@),
{
    let mut i: usize = 0;
    while i < v.len()
        invariant
            i <= v@.len(),
            forall|k: int| 0 <= k < i ==> v@[k]@ != u@,
        decreases v@.len() - i,
    {
        if v[i] == *u {
            proof {
                assert(views(v@)[i as int] == u@);
            }
            return true;
        }
        i = i + 1;
    }
    proof {
        if views(v@).contains(u@) {
            let k = choose|k: int| 0 <= k < views(v@).len() && views(v@)[k] == u@;
            assert(v@[k]@ == u@);
        }
    }
    false
}

/// The captured URLs, each once, in the order of their first capture; matches
/// without a captured URL are passed over.
pub fn distinct_urls(caps: &Vec<Option<String>>) -> (r: Vec<String>)
    ensures
        views(r@) == distinct_present(option_views(caps@)),
{
    let ghost cv = option_views(caps@);
    let mut out: Vec<String> = Vec::new();
    let mut i: usize = 0;
    while i < caps.len()
        invariant
            i <= caps@.len(),
            cv == option_views(caps@),
            views(out@) == distinct_present(cv.subrange(0, i as int)),
        decreases caps@.len() - i,
    {
        proof {
            assert(cv.subrange(0, i + 1).drop_last() =~= cv.subrange(0, i as int));
        }
        match &caps[i] {
            Some(u) => {
                if !holds(&out, u) {
                    let ghost before = out@;
                    out.push(u.clone());
                    proof {
                        assert(views(out@) =~= views(before).push(u@));
                    }
                }
            },
            None => {},
        }
        i = i + 1;
    }
    proof {
        assert(cv.subrange(0, cv.len() as int) =~= cv);
    }
    out
}

/// The URLs of the image references of `markdown`, each once, in the order of
/// their first appearance.
pub fn image_urls(markdown: &str) -> (r: Vec<String>)
    ensures
        views(r@) == image_references(markdown@),
{
    match capture_first_groups(IMAGE_PATTERN, markdown) {
        Ok(caps) => distinct_urls(&caps),
        Err(_) => {
            proof {
                assert(false);
            }
            Vec::new()
        },
    }
}

} // verus!
