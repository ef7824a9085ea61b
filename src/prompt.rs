//! The request for a cover image of a document.

use vstd::prelude::*;
use crate::text::{
    chars_of, find_exec, lemma_find_from, line_pass, occurs_at, occurs_at_exec, string_of_range,
    trim_chars, trimmed,
};

verus! {

/// The title used where the document has no heading of the first level.
pub const DEFAULT_TITLE: &'static str = "微信公众号文章";

pub const PROMPT_HEAD: &'static str = "Create a clean, modern, minimalist cover image for a WeChat article titled '";

pub const PROMPT_TAIL: &'static str = "'. The image should be professional, eye-catching, and suitable for social media. Use a 16:9 aspect ratio with vibrant colors and simple geometric shapes. No text in the image.";

/// `s` without the `# ` marks it begins with.
pub open spec fn strip_heading_marks(s: Seq<char>) -> Seq<char>
    decreases s.len(),
{
    if s.len() >= 2 && occurs_at(s, "# "@, 0) {
        strip_heading_marks(s.subrange(2, s.len() as int))
    } else {
        s
    }
}

/// The text of the first line that, trimmed, is a first-level heading with
/// some text.
pub open spec fn title_in(lines: Seq<Seq<char>>) -> Option<Seq<char>>
    decreases lines.len(),
{
    if lines.len() == 0 {
        None
    } else {
        let t = trimmed(lines[0]);
        if occurs_at(t, "# "@, 0) && strip_heading_marks(t).len() > 0 {
            Some(strip_heading_marks(t))
        } else {
            title_in(lines.drop_first())
        }
    }
}

/// The title of a document: its first heading's text, else the default title.
pub open spec fn title_of(markdown: Seq<char>) -> Seq<char> {
    match title_in(line_pass(markdown, 0)) {
        Some(t) => t,
        None => DEFAULT_TITLE@,
    }
}

/// The request for a cover image of the document.
pub open spec fn image_prompt(markdown: Seq<char>) -> Seq<char> {
    PROMPT_HEAD@ + title_of(markdown) + PROMPT_TAIL@
}

/// `s` without the `# ` marks it begins with.
fn strip_heading_marks_exec(s: &str) -> (r: String)
    ensures
        r@ == strip_heading_marks(s@),
{
    let v = chars_of(s);
    let mark = chars_of("# ");
    proof {
        reveal_strlit("# ");
        assert(v@.subrange(0, v@.len() as int) =~= v@);
    }
    let n = v.len();
    let mut i: usize = 0;
    loop
        invariant
            n == v@.len(),
            i <= v@.len(),
            mark@ == "# "@,
            mark@.len() == 2,
            strip_heading_marks(v@) == strip_heading_marks(v@.subrange(i as int, v@.len() as int)),
        ensures
            i <= v@.len(),
            n == v@.len(),
            strip_heading_marks(v@) == v@.subrange(i as int, v@.len() as int),
        decreases v@.len() - i,
    {
        let here = occurs_at_exec(&v, &mark, i);
        proof {
            let w = v@.subrange(i as int, v@.len() as int);
            if w.len() >= 2 {
                assert(w.subrange(0, 2) =~= v@.subrange(i as int, i + 2));
            }
            if here {
                assert(w.subrange(2, w.len() as int) =~= v@.subrange(i + 2, v@.len() as int));
            } else {
                assert(!occurs_at(w, "# "@, 0));
                assert(strip_heading_marks(w) == w);
            }
        }
        if !here {
            break ;
        }
        i = i + 2;
    }
    string_of_range(&v, i, n)
}

/// The title of `markdown`, as `title_of` states.
pub fn title_of_markdown(markdown: &str) -> (r: String)
    ensures
        r@ == title_of(markdown@),
{
    let s = chars_of(markdown);
    let nl = chars_of("\n");
    let mark = chars_of("# ");
    let n = s.len();
    let mut pos: usize = 0;
    proof {
        reveal_strlit("\n");
        reveal_strlit("# ");
        assert(nl@ =~= seq!['\n']);
    }
    while pos < n
        invariant
            s@ == markdown@,
            n == s@.len(),
            nl@ == seq!['\n'],
            mark@ == "# "@,
            pos <= n,
            title_in(line_pass(s@, 0)) == title_in(line_pass(s@, pos as int)),
        decreases n - pos,
    {
        let end = match find_exec(&s, &nl, pos) {
            Some(i) => i,
            None => n,
        };
        proof {
            lemma_find_from(s@, seq!['\n'], pos as int);
        }
        let line = string_of_range(&s, pos, end);
        let t = trim_chars(line.as_str());
        let tv = chars_of(t.as_str());
        proof {
            let l = s@.subrange(pos as int, end as int);
            assert(line_pass(s@, pos as int) == seq![l] + line_pass(s@, end + 1));
            assert(line_pass(s@, pos as int).drop_first() =~= line_pass(s@, end + 1));
        }
        if occurs_at_exec(&tv, &mark, 0) {
            let title = strip_heading_marks_exec(t.as_str());
            if !title.as_str().is_empty() {
                return title;
            }
        }
        pos = if end < n {
            end + 1
        } else {
            n
        };
    }
    DEFAULT_TITLE.to_string()
}

/// The request for a cover image of `markdown`, naming its title.
pub fn generate_image_prompt_from_markdown(markdown: &str) -> (r: String)
    ensures
        r@ == image_prompt(markdown@),
{
    let mut r = PROMPT_HEAD.to_string();
    let title = title_of_markdown(markdown);
    r.append(title.as_str());
    r.append(PROMPT_TAIL);
    r
}

} // verus!
