//! Links become numbered footnote markers, with the URLs listed at the end.

use vstd::prelude::*;
use crate::text::{
    chars_of, contains, decimal, decimal_string, find_exec, find_from, lemma_find_from, occurs_at,
    is_space, is_space_exec, push_char, push_range, string_of_range, views,
};

verus! {

/// How an anchor's opening tag begins; its attributes follow in any order.
pub open spec fn anchor_open() -> Seq<char> {
    "<a "@
}

pub open spec fn tag_end() -> Seq<char> {
    ">"@
}

pub open spec fn anchor_close() -> Seq<char> {
    "</a>"@
}

pub open spec fn href_attr() -> Seq<char> {
    "href=\""@
}

pub open spec fn quote() -> Seq<char> {
    "\""@
}

/// The numbered marker that stands where link number `n` was.
pub open spec fn marker(n: nat) -> Seq<char> {
    "<span class=\"footnote-ref\">"@ + decimal(n) + "</span>"@
}

/// The list entry for one extracted URL.
pub open spec fn list_item(url: Seq<char>) -> Seq<char> {
    "<li><span class=\"footnote-url\">"@ + url + "</span></li>\n"@
}

pub open spec fn list_items(urls: Seq<Seq<char>>) -> Seq<char>
    decreases urls.len(),
{
    if urls.len() == 0 {
        Seq::empty()
    } else {
        list_items(urls.drop_last()) + list_item(urls.last())
    }
}

/// The footnote list appended after the fragment.
pub open spec fn footnote_list(urls: Seq<Seq<char>>) -> Seq<char> {
    "<div class=\"footnotes\">\n<ol>\n"@ + list_items(urls) + "</ol>\n</div>"@
}

/// The first `href="` at or after `i` in `tag` that is an attribute name, that
/// is, preceded by white space.
pub open spec fn href_from(tag: Seq<char>, i: int) -> Option<int>
    decreases tag.len() + 1 - i,
{
    if i < 0 || i > tag.len() {
        None
    } else {
        match find_from(tag, href_attr(), i) {
            None => None,
            Some(h) => if h >= 1 && is_space(tag[h - 1]) {
                Some(h)
            } else if i <= h < tag.len() {
                href_from(tag, h + 1)
            } else {
                None
            },
        }
    }
}

/// The URL of an opening tag whose `href` attribute stands at `h`: the text up
/// to the next quote, where there is one.
pub open spec fn url_in(tag: Seq<char>, h: Option<int>) -> Option<Seq<char>> {
    match h {
        Some(h) => match find_from(tag, quote(), h + href_attr().len()) {
            Some(q) => if 0 <= h && h + href_attr().len() <= q {
                Some(tag.subrange(h + href_attr().len(), q))
            } else {
                None
            },
            None => None,
        },
        None => None,
    }
}

/// Scans `s[p..]` for links, numbering them from `n`: the rewritten text, and
/// the URLs taken out, in order.
///
/// At each `<a ` and the first `>` after it: where another `<a ` starts before
/// the tag's `href` attribute (before its `>` where it has none), the scan
/// starts again there. An opening tag without a quoted `href` is kept up to its
/// `>`, and the scan goes on after it. A link is replaced up to its `</a>`. From
/// an `<a ` with no `>`, or a link with no `</a>`, the rest is kept as it is.
#[verifier::opaque]
pub open spec fn footnote_pass(s: Seq<char>, p: int, n: nat) -> (Seq<char>, Seq<Seq<char>>)
    decreases s.len() + 1 - p
        via footnote_pass_decreases
{
    if p < 0 || p > s.len() {
        (Seq::empty(), Seq::empty())
    } else {
        match find_from(s, anchor_open(), p) {
            None => (s.subrange(p, s.len() as int), Seq::empty()),
            Some(a) => match find_from(s, tag_end(), a) {
                None => (s.subrange(p, s.len() as int), Seq::empty()),
                Some(g) => if p <= a <= g < s.len() {
                    let tag = s.subrange(a, g + 1);
                    let h = href_from(tag, 0);
                    let limit = match h {
                        Some(h) => a + h,
                        None => g,
                    };
                    let restart = match find_from(s, anchor_open(), a + 1) {
                        Some(a2) => if p < a2 < limit && a2 <= g {
                            Some(a2)
                        } else {
                            None
                        },
                        None => None,
                    };
                    match restart {
                        Some(a2) => {
                            let rest = footnote_pass(s, a2, n);
                            (s.subrange(p, a2) + rest.0, rest.1)
                        },
                        None => match url_in(tag, h) {
                            None => {
                                let rest = footnote_pass(s, g + 1, n);
                                (s.subrange(p, g + 1) + rest.0, rest.1)
                            },
                            Some(url) => match find_from(s, anchor_close(), g + 1) {
                                None => (s.subrange(p, s.len() as int), Seq::empty()),
                                Some(c) => if g + 1 <= c && c + anchor_close().len() <= s.len() {
                                    let rest = footnote_pass(s, c + anchor_close().len(), n + 1);
                                    (
                                        s.subrange(p, a) + s.subrange(g + 1, c) + seq![' ']
                                            + marker(n) + rest.0,
                                        seq![url] + rest.1,
                                    )
                                } else {
                                    (s.subrange(p, s.len() as int), Seq::empty())
                                },
                            },
                        },
                    }
                } else {
                    (s.subrange(p, s.len() as int), Seq::empty())
                },
            },
        }
    }
}

#[via_fn]
proof fn footnote_pass_decreases(s: Seq<char>, p: int, n: nat) {
    reveal_strlit("</a>");
    assert(anchor_close().len() == 4);
}

/// The fragment with each link replaced by its text and a numbered marker, and
/// the list of the links' URLs after it where there was at least one.
pub open spec fn footnotes_of(s: Seq<char>) -> Seq<char> {
    let r = footnote_pass(s, 0, 1);
    if r.1.len() == 0 {
        r.0
    } else {
        r.0 + footnote_list(r.1)
    }
}

/// The URLs that the rewriter takes out of `s`, in order.
pub open spec fn footnote_urls(s: Seq<char>) -> Seq<Seq<char>> {
    footnote_pass(s, 0, 1).1
}

/// Where no URL is taken out, the text is kept as it is.
proof fn lemma_no_links_unchanged(s: Seq<char>, p: int, n: nat)
    requires
        0 <= p <= s.len(),
    ensures
        footnote_pass(s, p, n).1.len() == 0 ==> footnote_pass(s, p, n).0 == s.subrange(
            p,
            s.len() as int,
        ),
    decreases s.len() + 1 - p,
{
    reveal(footnote_pass);
    reveal_strlit("</a>");
    if let Some(a) = find_from(s, anchor_open(), p) {
        lemma_find_from(s, anchor_open(), p);
        if let Some(g) = find_from(s, tag_end(), a) {
            lemma_find_from(s, tag_end(), a);
            if p <= a <= g < s.len() {
                let tag = s.subrange(a, g + 1);
                let h = href_from(tag, 0);
                let limit = match h {
                    Some(h) => a + h,
                    None => g,
                };
                let restart = match find_from(s, anchor_open(), a + 1) {
                    Some(a2) => if p < a2 < limit && a2 <= g {
                        Some(a2)
                    } else {
                        None
                    },
                    None => None,
                };
                match restart {
                    Some(a2) => {
                        lemma_no_links_unchanged(s, a2, n);
                        assert(s.subrange(p, a2) + s.subrange(a2, s.len() as int) =~= s.subrange(
                            p,
                            s.len() as int,
                        ));
                    },
                    None => {
                        if url_in(tag, h) is None {
                            lemma_no_links_unchanged(s, g + 1, n);
                            assert(s.subrange(p, g + 1) + s.subrange(g + 1, s.len() as int)
                                =~= s.subrange(p, s.len() as int));
                        }
                    },
                }
            }
        }
    }
}

/// Text without an anchor opening before `q` is kept, and the scan goes on at `q`.
proof fn lemma_text_before(s: Seq<char>, p: int, q: int, n: nat)
    requires
        0 <= p <= q <= s.len(),
        forall|j: int| p <= j < q ==> !occurs_at(s, anchor_open(), j),
    ensures
        footnote_pass(s, p, n) == ({
            let rest = footnote_pass(s, q, n);
            (s.subrange(p, q) + rest.0, rest.1)
        }),
{
    reveal(footnote_pass);
    lemma_find_from(s, anchor_open(), p);
    lemma_find_from(s, anchor_open(), q);
    assert(find_from(s, anchor_open(), p) == find_from(s, anchor_open(), q));
    assert(s.subrange(p, q) + s.subrange(q, s.len() as int) =~= s.subrange(p, s.len() as int));
    if let Some(a) = find_from(s, anchor_open(), q) {
        assert(s.subrange(p, q) + s.subrange(q, a) =~= s.subrange(p, a));
        lemma_find_from(s, anchor_open(), q);
        if let Some(g) = find_from(s, tag_end(), a) {
            lemma_find_from(s, tag_end(), a);
            reveal_strlit(">");
            assert(s.subrange(p, q) + s.subrange(q, g + 1) =~= s.subrange(p, g + 1));
            if let Some(a2) = find_from(s, anchor_open(), a + 1) {
                lemma_find_from(s, anchor_open(), a + 1);
                assert(s.subrange(p, q) + s.subrange(q, a2) =~= s.subrange(p, a2));
            }
        }
    }
}

fn sub_vec(v: &Vec<char>, from: usize, to: usize) -> (r: Vec<char>)
    requires
        from <= to <= v@.len(),
    ensures
        r@ == v@.subrange(from as int, to as int),
{
    let mut r: Vec<char> = Vec::new();
    let mut i: usize = from;
    while i < to
        invariant
            from <= i <= to <= v@.len(),
            r@ == v@.subrange(from as int, i as int),
        decreases to - i,
    {
        r.push(v[i]);
        i = i + 1;
        proof {
            assert(r@ =~= v@.subrange(from as int, i as int));
        }
    }
    r
}

/// Where the `href` attribute of an opening tag stands, as `href_from` states.
fn find_href(tag: &Vec<char>, href: &Vec<char>) -> (r: Option<usize>)
    requires
        href@ == href_attr(),
        href@.len() == 6,
    ensures
        match r {
            Some(h) => href_from(tag@, 0) == Some(h as int) && h + 6 <= tag@.len(),
            None => href_from(tag@, 0) is None,
        },
{
    let mut i: usize = 0;
    loop
        invariant
            href@ == href_attr(),
            href@.len() == 6,
            i <= tag@.len(),
            href_from(tag@, 0) == href_from(tag@, i as int),
        decreases tag@.len() - i,
    {
        match find_exec(tag, href, i) {
            None => {
                return None;
            },
            Some(h) => {
                proof {
                    lemma_find_from(tag@, href_attr(), i as int);
                }
                if h >= 1 && is_space_exec(tag[h - 1]) {
                    return Some(h);
                }
                if h >= tag.len() {
                    assert(href_from(tag@, h + 1) is None);
                    return None;
                }
                i = h + 1;
            },
        }
    }
}

/// Appends the footnote list of `urls` to `out`.
fn push_footnote_list(out: &mut String, urls: &Vec<String>)
    ensures
        final(out)@ == old(out)@ + footnote_list(views(urls@)),
{
    out.append("<div class=\"footnotes\">\n<ol>\n");
    let ghost head = out@;
    let mut i: usize = 0;
    while i < urls.len()
        invariant
            i <= urls@.len(),
            out@ == head + list_items(views(urls@.subrange(0, i as int))),
        decreases urls@.len() - i,
    {
        out.append("<li><span class=\"footnote-url\">");
        out.append(urls[i].as_str());
        out.append("</span></li>\n");
        proof {
            let prev = views(urls@.subrange(0, i as int));
            let next = views(urls@.subrange(0, i + 1));
            assert(next.drop_last() =~= prev);
            assert(next.last() == urls@[i as int]@);
        }
        i = i + 1;
    }
    proof {
        assert(urls@.subrange(0, urls@.len() as int) =~= urls@);
    }
    out.append("</ol>\n</div>");
}

/// Replaces each anchor `<a ... href="URL" ...>TEXT</a>` of `html`, left to right,
/// whatever other attributes stand before or after `href`, with `TEXT`
/// and a marker numbered from 1, and appends the list of the URLs in the same
/// order. An opening tag without an `href` attribute is kept, and scanning goes
/// on after it, so a stray `<a ...>` never hides a later link. A fragment without
/// a link comes back unchanged.
#[verifier::rlimit(40)]
pub fn convert_links_to_footnotes(html: &str) -> (r: String)
    ensures
        r@ == footnotes_of(html@),
        footnote_urls(html@).len() == 0 ==> r@ == html@,
{
    let s = chars_of(html);
    let a_open = chars_of("<a ");
    let gt = chars_of(">");
    let a_close = chars_of("</a>");
    let href = chars_of("href=\"");
    let dq = chars_of("\"");
    let n = s.len();
    let mut out = String::new();
    let mut urls: Vec<String> = Vec::new();
    let mut pos: usize = 0;
    proof {
        reveal(footnote_pass);
        lemma_no_links_unchanged(s@, 0, 1);
        assert(s@.subrange(0, s@.len() as int) =~= s@);
        reveal_strlit("</a>");
        reveal_strlit("href=\"");
        reveal_strlit(">");
        reveal_strlit("\"");
        assert(out@ + footnote_pass(s@, 0, 1).0 =~= footnote_pass(s@, 0, 1).0);
        assert(views(urls@) + footnote_pass(s@, 0, 1).1 =~= footnote_pass(s@, 0, 1).1);
    }
    loop
        invariant
            s@ == html@,
            n == s@.len(),
            a_open@ == anchor_open(),
            gt@ == tag_end(),
            a_close@ == anchor_close(),
            a_close@.len() == 4,
            href@ == href_attr(),
            href@.len() == 6,
            gt@.len() == 1,
            dq@ == quote(),
            dq@.len() == 1,
            pos <= s@.len(),
            urls@.len() <= pos,
            footnote_pass(s@, 0, 1).0 == out@ + footnote_pass(s@, pos as int, (urls@.len() + 1) as nat).0,
            footnote_pass(s@, 0, 1).1 == views(urls@) + footnote_pass(s@, pos as int, (urls@.len() + 1) as nat).1,
        ensures
            pos <= s@.len(),
            footnote_pass(s@, pos as int, (urls@.len() + 1) as nat) == (
                s@.subrange(pos as int, s@.len() as int),
                Seq::<Seq<char>>::empty(),
            ),
        decreases s@.len() - pos,
    {
        proof {
            reveal(footnote_pass);
        }
        let a = match find_exec(&s, &a_open, pos) {
            None => {
                break ;
            },
            Some(a) => a,
        };
        proof {
            lemma_find_from(s@, anchor_open(), pos as int);
        }
        let g = match find_exec(&s, &gt, a) {
            None => {
                break ;
            },
            Some(g) => g,
        };
        proof {
            lemma_find_from(s@, tag_end(), a as int);
        }
        let tag = sub_vec(&s, a, g + 1);
        let h = find_href(&tag, &href);
        let limit = match h {
            Some(h) => a + h,
            None => g,
        };
        if let Some(a2) = find_exec(&s, &a_open, a + 1) {
            if a2 < limit && a2 <= g {
                proof {
                    lemma_find_from(s@, anchor_open(), a + 1);
                }
                push_range(&mut out, &s, pos, a2);
                pos = a2;
                continue ;
            }
        }
        let url_end = match h {
            Some(h) => match find_exec(&tag, &dq, h + 6) {
                Some(q) => {
                    proof {
                        lemma_find_from(tag@, quote(), h + 6);
                    }
                    Some((h + 6, q))
                },
                None => None,
            },
            None => None,
        };
        let (u0, u1) = match url_end {
            None => {
                push_range(&mut out, &s, pos, g + 1);
                pos = g + 1;
                continue ;
            },
            Some(r) => r,
        };
        let c = match find_exec(&s, &a_close, g + 1) {
            None => {
                break ;
            },
            Some(c) => c,
        };
        proof {
            lemma_find_from(s@, anchor_close(), g + 1);
        }
        let number = urls.len() + 1;
        push_range(&mut out, &s, pos, a);
        push_range(&mut out, &s, g + 1, c);
        push_char(&mut out, ' ');
        out.append("<span class=\"footnote-ref\">");
        let digits = decimal_string(number as u64);
        out.append(digits.as_str());
        out.append("</span>");
        let url = string_of_range(&tag, u0, u1);
        let ghost before = urls@;
        urls.push(url);
        proof {
            assert(views(urls@) =~= views(before) + seq![url@]);
        }
        pos = c + 4;
    }
    proof {
        assert(views(urls@) + Seq::<Seq<char>>::empty() =~= views(urls@));
    }
    push_range(&mut out, &s, pos, s.len());
    if urls.len() > 0 {
        push_footnote_list(&mut out, &urls);
    }
    out
}

/// An anchor opening with no end of tag after it stops the rewriting: where it
/// is the first anchor, the fragment comes back unchanged.
pub proof fn lemma_unclosed_anchor_kept(html: Seq<char>, a: int)
    requires
        find_from(html, anchor_open(), 0) == Some(a),
        find_from(html, tag_end(), a) is None,
    ensures
        footnotes_of(html) == html,
        footnote_urls(html).len() == 0,
{
    reveal(footnote_pass);
    assert(html.subrange(0, html.len() as int) =~= html);
}

/// The anchor `<a href="u">t</a>`.
pub open spec fn anchor_html(u: Seq<char>, t: Seq<char>) -> Seq<char> {
    "<a href=\""@ + u + "\">"@ + t + "</a>"@
}

/// `find_from` gives `k` where `p` occurs at `k` and nowhere from `from` before it.
proof fn lemma_find_is(s: Seq<char>, p: Seq<char>, from: int, k: int)
    requires
        0 <= from <= k,
        occurs_at(s, p, k),
        forall|j: int| from <= j < k ==> !occurs_at(s, p, j),
    ensures
        find_from(s, p, from) == Some(k),
{
    lemma_find_from(s, p, from);
}

/// One anchor `<a href="u">t</a>` at `p` becomes `t`, a space and marker `n`,
/// and gives the URL `u`.
proof fn lemma_anchor_step(s: Seq<char>, p: int, n: nat, u: Seq<char>, t: Seq<char>)
    requires
        0 <= p,
        p + anchor_html(u, t).len() <= s.len(),
        s.subrange(p, p + anchor_html(u, t).len()) == anchor_html(u, t),
        forall|i: int| 0 <= i < u.len() ==> u[i] != '"' && u[i] != '>',
        !contains(t, anchor_close()),
    ensures
        footnote_pass(s, p, n) == ({
            let rest = footnote_pass(s, p + anchor_html(u, t).len(), n + 1);
            (t + seq![' '] + marker(n) + rest.0, seq![u] + rest.1)
        }),
{
    reveal(footnote_pass);
    reveal_strlit("<a href=\"");
    reveal_strlit("\">");
    reveal_strlit("</a>");
    reveal_strlit("<a ");
    reveal_strlit(">");
    reveal_strlit("href=\"");
    reveal_strlit("\"");
    let a = anchor_html(u, t);
    let head = "<a href=\""@;
    assert(head.len() == 9);
    let g = p + 9 + u.len() + 1;
    let c = g + 1 + t.len();
    let end = c + 4;
    assert(a.len() == 9 + u.len() + 2 + t.len() + 4);
    assert forall|i: int| 0 <= i < a.len() implies #[trigger] s[p + i] == a[i] by {
        assert(s.subrange(p, p + a.len())[i] == s[p + i]);
    }
    // the anchor opening
    assert(s.subrange(p, p + 3) =~= anchor_open());
    lemma_find_is(s, anchor_open(), p, p);
    // the end of the opening tag
    let ul = u.len() as int;
    let mid = "\">"@;
    let x1 = head + u;
    let x2 = x1 + mid;
    let x3 = x2 + t;
    assert(a == x3 + anchor_close());
    assert(mid.len() == 2 && mid[0] == '"' && mid[1] == '>');
    assert forall|k: int| 0 <= k < x2.len() implies #[trigger] a[k] == x2[k] by {
        assert(a[k] == x3[k]);
        assert(x3[k] == x2[k]);
    }
    assert(a[9 + ul + 1] == '>') by {
        assert(x2[9 + ul + 1] == mid[1]);
    }
    assert(s[g] == '>');
    assert(s.subrange(g, g + 1) =~= tag_end());
    assert forall|j: int| p <= j < g implies !occurs_at(s, tag_end(), j) by {
        assert(s.subrange(j, j + 1)[0] == s[j]);
        assert(s[j] == a[j - p]);
        let k = j - p;
        assert(a[k] == x2[k]);
        if k < 9 {
            assert(x2[k] == head[k]);
        } else if k < 9 + ul {
            assert(x2[k] == u[k - 9]);
        } else {
            assert(x2[k] == mid[0]);
        }
    }
    lemma_find_is(s, tag_end(), p, g);
    // the closing tag
    assert(x2.len() == 9 + ul + 2);
    assert(x3.len() == x2.len() + t.len());
    assert forall|k: int| x2.len() <= k < x3.len() implies #[trigger] a[k] == t[k - x2.len()] by {
        assert(a[k] == x3[k]);
    }
    assert forall|k: int| x3.len() <= k < a.len() implies #[trigger] a[k] == anchor_close()[k
        - x3.len()] by {}
    assert forall|k: int| g + 1 <= k < c implies #[trigger] s[k] == t[k - g - 1] by {
        assert(s[k] == a[k - p]);
    }
    assert forall|k: int| c <= k < c + 4 implies #[trigger] s[k] == anchor_close()[k - c] by {
        assert(s[k] == a[k - p]);
    }
    assert(s.subrange(c, c + 4) =~= anchor_close());
    lemma_find_from(t, anchor_close(), 0);
    assert forall|j: int| g + 1 <= j < c implies !occurs_at(s, anchor_close(), j) by {
        if occurs_at(s, anchor_close(), j) {
            if j + 4 <= c {
                assert(t.subrange(j - g - 1, j - g - 1 + 4) =~= s.subrange(j, j + 4));
                assert(occurs_at(t, anchor_close(), j - g - 1));
            } else {
                assert(s.subrange(j, j + 4)[c - j] == s[c]);
                assert(s[c] == '<');
                assert(anchor_close()[c - j] != '<');
            }
        }
    }
    lemma_find_is(s, anchor_close(), g + 1, c);
    // the URL inside the tag
    let tag = s.subrange(p, g + 1);
    assert(tag =~= head + u + "\">"@);
    assert(tag.subrange(3, 9) =~= href_attr());
    assert forall|j: int| 0 <= j < 3 implies !occurs_at(tag, href_attr(), j) by {
        assert(tag.subrange(j, j + 6)[0] == tag[j]);
    }
    lemma_find_is(tag, href_attr(), 0, 3);
    assert(tag[2] == ' ');
    assert(href_from(tag, 0) == Some(3int));
    // no other anchor opening before the attribute
    assert(!occurs_at(s, anchor_open(), p + 1)) by {
        assert(s.subrange(p + 1, p + 4)[0] == s[p + 1]);
    }
    assert(!occurs_at(s, anchor_open(), p + 2)) by {
        assert(s.subrange(p + 2, p + 5)[0] == s[p + 2]);
    }
    lemma_find_from(s, anchor_open(), p + 1);
    assert(tag.subrange(9 + ul, 10 + ul) =~= quote());
    assert forall|j: int| 9 <= j < 9 + ul implies !occurs_at(tag, quote(), j) by {
        assert(tag.subrange(j, j + 1)[0] == tag[j]);
        assert(tag[j] == u[j - 9]);
    }
    lemma_find_is(tag, quote(), 9, 9 + ul);
    assert(tag.subrange(9, 9 + ul) =~= u);
    assert(url_in(tag, Some(3int)) == Some(u));
    assert(s.subrange(g + 1, c) =~= t);
    assert(s.subrange(p, p) =~= Seq::<char>::empty());
    assert(Seq::<char>::empty() + t =~= t);
    assert(end == p + a.len());
}

/// Text `x` without an anchor opening, placed at `p` and followed by `<` or by
/// the end, holds no anchor opening of `s`.
proof fn lemma_plain_text(s: Seq<char>, p: int, x: Seq<char>)
    requires
        0 <= p,
        p + x.len() <= s.len(),
        s.subrange(p, p + x.len()) == x,
        !contains(x, anchor_open()),
        p + x.len() == s.len() || s[p + x.len()] == '<',
    ensures
        forall|j: int| p <= j < p + x.len() ==> !occurs_at(s, anchor_open(), j),
{
    reveal_strlit("<a ");
    lemma_find_from(x, anchor_open(), 0);
    let q = p + x.len();
    assert forall|j: int| p <= j < q implies !occurs_at(s, anchor_open(), j) by {
        if occurs_at(s, anchor_open(), j) {
            if j + 3 <= q {
                assert(x.subrange(j - p, j - p + 3) =~= s.subrange(j, j + 3));
                assert(occurs_at(x, anchor_open(), j - p));
            } else {
                assert(s.subrange(j, j + 3)[q - j] == s[q]);
                assert(anchor_open()[q - j] != '<');
            }
        }
    }
}

/// Links are numbered in the order they appear, a repeated URL included: text,
/// anchors to `u1`, `u2` and `u1` again, with text between and after them, give
/// the markers 1, 2 and 3 and a list of three entries whose first and third
/// are `u1`.
#[verifier::rlimit(50)]
pub proof fn lemma_footnotes_number_in_order(
    s0: Seq<char>,
    u1: Seq<char>,
    t1: Seq<char>,
    s1: Seq<char>,
    u2: Seq<char>,
    t2: Seq<char>,
    s2: Seq<char>,
    t3: Seq<char>,
    s3: Seq<char>,
)
    requires
        forall|i: int| 0 <= i < u1.len() ==> u1[i] != '"' && u1[i] != '>',
        forall|i: int| 0 <= i < u2.len() ==> u2[i] != '"' && u2[i] != '>',
        !contains(t1, anchor_close()),
        !contains(t2, anchor_close()),
        !contains(t3, anchor_close()),
        !contains(s0, anchor_open()),
        !contains(s1, anchor_open()),
        !contains(s2, anchor_open()),
        !contains(s3, anchor_open()),
    ensures
        footnotes_of(
            s0 + anchor_html(u1, t1) + s1 + anchor_html(u2, t2) + s2 + anchor_html(u1, t3) + s3,
        ) == s0 + t1 + seq![' '] + marker(1) + s1 + t2 + seq![' '] + marker(2) + s2 + t3 + seq![
            ' ',
        ] + marker(3) + s3 + footnote_list(seq![u1, u2, u1]),
{
    reveal_strlit("<a href=\"");
    let a1 = anchor_html(u1, t1);
    let a2 = anchor_html(u2, t2);
    let a3 = anchor_html(u1, t3);
    let s = s0 + a1 + s1 + a2 + s2 + a3 + s3;
    let q1 = s0.len() as int;
    let e1 = q1 + a1.len();
    let q2 = e1 + s1.len();
    let e2 = q2 + a2.len();
    let q3 = e2 + s2.len();
    let e3 = q3 + a3.len();
    let end = e3 + s3.len();
    assert(end == s.len());
    assert(s.subrange(0, q1) =~= s0);
    assert(s.subrange(q1, e1) =~= a1);
    assert(s.subrange(e1, q2) =~= s1);
    assert(s.subrange(q2, e2) =~= a2);
    assert(s.subrange(e2, q3) =~= s2);
    assert(s.subrange(q3, e3) =~= a3);
    assert(s.subrange(e3, end) =~= s3);
    assert(s[q1] == a1[0]) by {
        assert(s.subrange(q1, e1)[0] == s[q1]);
    }
    assert(s[q2] == a2[0]) by {
        assert(s.subrange(q2, e2)[0] == s[q2]);
    }
    assert(s[q3] == a3[0]) by {
        assert(s.subrange(q3, e3)[0] == s[q3]);
    }
    assert(a1[0] == '<' && a2[0] == '<' && a3[0] == '<');
    lemma_plain_text(s, 0, s0);
    lemma_plain_text(s, e1, s1);
    lemma_plain_text(s, e2, s2);
    lemma_plain_text(s, e3, s3);
    let r4 = footnote_pass(s, end, 4);
    assert(r4 == (Seq::<char>::empty(), Seq::<Seq<char>>::empty())) by {
        reveal(footnote_pass);
        assert(s.subrange(end, end) =~= Seq::<char>::empty());
    }
    let w3 = s3;
    assert(footnote_pass(s, e3, 4) == (w3, Seq::<Seq<char>>::empty())) by {
        lemma_text_before(s, e3, end, 4);
        assert(w3 + Seq::<char>::empty() =~= w3);
    }
    let w2 = t3 + seq![' '] + marker(3) + w3;
    assert(footnote_pass(s, q3, 3) == (w2, seq![u1])) by {
        lemma_anchor_step(s, q3, 3, u1, t3);
        assert(seq![u1] + Seq::<Seq<char>>::empty() =~= seq![u1]);
    }
    let w1 = s2 + w2;
    assert(footnote_pass(s, e2, 3) == (w1, seq![u1])) by {
        lemma_text_before(s, e2, q3, 3);
    }
    let w0 = t2 + seq![' '] + marker(2) + w1;
    assert(footnote_pass(s, q2, 2) == (w0, seq![u2, u1])) by {
        lemma_anchor_step(s, q2, 2, u2, t2);
        assert(seq![u2] + seq![u1] =~= seq![u2, u1]);
    }
    let v1 = s1 + w0;
    assert(footnote_pass(s, e1, 2) == (v1, seq![u2, u1])) by {
        lemma_text_before(s, e1, q2, 2);
    }
    let v0 = t1 + seq![' '] + marker(1) + v1;
    assert(footnote_pass(s, q1, 1) == (v0, seq![u1, u2, u1])) by {
        lemma_anchor_step(s, q1, 1, u1, t1);
        assert(seq![u1] + seq![u2, u1] =~= seq![u1, u2, u1]);
    }
    assert(footnote_pass(s, 0, 1) == (s0 + v0, seq![u1, u2, u1])) by {
        lemma_text_before(s, 0, q1, 1);
    }
    let text = s0 + t1 + seq![' '] + marker(1) + s1 + t2 + seq![' '] + marker(2) + s2 + t3 + seq![
        ' ',
    ] + marker(3) + s3;
    assert(s0 + v0 =~= text);
}

} // verus!
