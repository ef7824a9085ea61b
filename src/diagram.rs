//! Fenced diagram blocks become containers that a client-side renderer draws.

use vstd::prelude::*;
use crate::text::{chars_of, contains, find_exec, find_from, lemma_find_from, occurs_at, push_range};

verus! {

/// How the Markdown engine opens a fenced diagram block.
pub open spec fn code_open() -> Seq<char> {
    "<pre><code class=\"language-mermaid\">"@
}

/// How the Markdown engine closes a fenced code block.
pub open spec fn code_close() -> Seq<char> {
    "</code></pre>"@
}

/// The container that a diagram block becomes.
pub open spec fn diagram_open() -> Seq<char> {
    "<div class=\"mermaid\">"@
}

pub open spec fn diagram_close() -> Seq<char> {
    "</div>"@
}

/// `s[p..]` with every complete diagram block turned into a diagram container;
/// from an opening marker without a closing one, the rest is kept as it is.
pub open spec fn diagram_pass(s: Seq<char>, p: int) -> Seq<char>
    decreases s.len() + 1 - p
        via diagram_pass_decreases
{
    if p < 0 || p > s.len() {
        Seq::empty()
    } else {
        match find_from(s, code_open(), p) {
            None => s.subrange(p, s.len() as int),
            Some(i) => match find_from(s, code_close(), i + code_open().len()) {
                None => s.subrange(p, s.len() as int),
                Some(j) => if p <= i && i + code_open().len() <= j && j + code_close().len()
                    <= s.len() {
                    s.subrange(p, i) + diagram_open() + s.subrange(i + code_open().len(), j)
                        + diagram_close() + diagram_pass(s, j + code_close().len())
                } else {
                    s.subrange(p, s.len() as int)
                },
            },
        }
    }
}

#[via_fn]
proof fn diagram_pass_decreases(s: Seq<char>, p: int) {
    reveal_strlit("</code></pre>");
    assert(code_close().len() == 13);
}

/// At least one diagram block is replaced: the first opening marker has a
/// closing marker after it.
pub open spec fn has_diagram_block(s: Seq<char>) -> bool {
    match find_from(s, code_open(), 0) {
        Some(i) => find_from(s, code_close(), i + code_open().len()) is Some,
        None => false,
    }
}

/// The whole fragment with its diagram blocks rewritten.
pub open spec fn diagram_rewrite(s: Seq<char>) -> Seq<char> {
    diagram_pass(s, 0)
}

/// Replaces each fenced diagram block of `input_html` by a diagram container that
/// holds the block's text as it is. The flag tells whether at least one block
/// was replaced; where none was, the fragment comes back unchanged.
pub fn replace_mermaid_blocks(input_html: &str) -> (r: (String, bool))
    ensures
        r.0@ == diagram_rewrite(input_html@),
        r.1 == has_diagram_block(input_html@),
        !r.1 ==> r.0@ == input_html@,
{
    let s = chars_of(input_html);
    let open = chars_of("<pre><code class=\"language-mermaid\">");
    let close = chars_of("</code></pre>");
    let mut output = String::new();
    let mut pos: usize = 0;
    let mut has_diagram = false;
    let n = s.len();
    proof {
        reveal_strlit("</code></pre>");
        lemma_find_from(s@, code_open(), 0);
    }
    loop
        invariant
            s@ == input_html@,
            n == s@.len(),
            open@ == code_open(),
            close@ == code_close(),
            close@.len() == 13,
            pos <= s@.len(),
            diagram_rewrite(s@) == output@ + diagram_pass(s@, pos as int),
            has_diagram ==> has_diagram_block(s@),
            !has_diagram ==> pos == 0,
        decreases s@.len() - pos,
    {
        match find_exec(&s, &open, pos) {
            None => {
                push_range(&mut output, &s, pos, s.len());
                proof {
                    if pos == 0 {
                        assert(s@.subrange(0, s@.len() as int) =~= s@);
                    }
                }
                return (output, has_diagram);
            },
            Some(i) => {
                proof {
                    lemma_find_from(s@, code_open(), pos as int);
                    lemma_find_from(s@, code_open(), 0);
                }
                assert(i + open@.len() <= s@.len());
                let body = i + open.len();
                match find_exec(&s, &close, body) {
                    None => {
                        push_range(&mut output, &s, pos, s.len());
                        proof {
                            if pos == 0 {
                                assert(s@.subrange(0, s@.len() as int) =~= s@);
                            }
                        }
                        return (output, has_diagram);
                    },
                    Some(j) => {
                        has_diagram = true;
                        proof {
                            lemma_find_from(s@, code_close(), body as int);
                        }
                        push_range(&mut output, &s, pos, i);
                        output.append("<div class=\"mermaid\">");
                        push_range(&mut output, &s, body, j);
                        output.append("</div>");
                        proof {
                            assert(diagram_pass(s@, pos as int) == s@.subrange(pos as int, i as int)
                                + diagram_open() + s@.subrange(body as int, j as int)
                                + diagram_close() + diagram_pass(s@, j + 13));
                        }
                        assert(j + 13 <= s@.len());
                        pos = j + 13;
                    },
                }
            },
        }
    }
}

/// The closing marker overlaps no later occurrence of itself: no proper prefix
/// of it is also a suffix.
proof fn lemma_code_close_no_border(k: int)
    requires
        0 < k < code_close().len(),
    ensures
        code_close().subrange(0, k) != code_close().subrange(code_close().len() - k, code_close().len() as int),
{
    reveal_strlit("</code></pre>");
    let c = code_close();
    assert(c.len() == 13);
    if c.subrange(0, k) == c.subrange(13 - k, 13) {
        assert(c.subrange(0, k)[k - 1] == c.subrange(13 - k, 13)[k - 1]);
        assert(c.subrange(0, k)[0] == c.subrange(13 - k, 13)[0]);
        assert(c[k - 1] == '>');
        assert(c[13 - k] == '<');
    }
}

/// A single diagram block whose text holds no closing marker becomes a diagram
/// container with the same text, and is reported as a diagram.
pub proof fn lemma_diagram_round_trip(x: Seq<char>)
    requires
        !contains(x, code_close()),
    ensures
        diagram_rewrite(code_open() + x + code_close()) == diagram_open() + x + diagram_close(),
        has_diagram_block(code_open() + x + code_close()),
{
    reveal_strlit("</code></pre>");
    let o = code_open();
    let c = code_close();
    let s = o + x + c;
    let b = o.len() as int;
    let e = b + x.len();
    assert(s.subrange(0, b) =~= o);
    assert(occurs_at(s, o, 0));
    assert(s.subrange(e, e + c.len()) =~= c);
    assert(occurs_at(s, c, e));
    lemma_find_from(x, c, 0);
    assert forall|j: int| b <= j < e implies !occurs_at(s, c, j) by {
        if occurs_at(s, c, j) {
            if j + c.len() <= e {
                assert(x.subrange(j - b, j - b + c.len()) =~= s.subrange(j, j + c.len()));
                assert(occurs_at(x, c, j - b));
            } else {
                let k = e - j;
                assert(c.subrange(0, c.len() - k) =~= s.subrange(e, j + c.len()));
                assert(c.subrange(k, c.len() as int) =~= s.subrange(e, j + c.len())) by {
                    assert(s.subrange(j, j + c.len()) == c);
                    assert forall|t: int| 0 <= t < c.len() - k implies #[trigger] s[e + t] == c[k + t] by {
                        assert(s.subrange(j, j + c.len())[k + t] == s[j + k + t]);
                    }
                }
                lemma_code_close_no_border(c.len() - k);
            }
        }
    }
    lemma_find_from(s, c, b);
    assert(find_from(s, c, b) == Some(e)) by {
        match find_from(s, c, b) {
            Some(i) => {
                if i > e {
                    assert(!occurs_at(s, c, e));
                }
            },
            None => {
                assert(!occurs_at(s, c, e));
            },
        }
    }
    lemma_find_from(s, o, 0);
    assert(diagram_pass(s, s.len() as int) =~= Seq::<char>::empty());
    assert(s.subrange(0, 0) + diagram_open() + s.subrange(b, e) + diagram_close() + Seq::<char>::empty()
        =~= diagram_open() + x + diagram_close());
}

} // verus!
