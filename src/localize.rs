//! Localizing images: which references are downloaded, from where, under
//! which name, and how the Markdown is rewritten.

use vstd::prelude::*;
use crate::images::{image_references, image_urls};
use crate::text::{
    chars_of, occurs_at, push_char, replace_all, replace_exec, starts_with, string_of_range,
    trim_chars, trimmed, views,
};

verus! {

/// The text of an optional string.
pub open spec fn opt_view(o: Option<String>) -> Option<Seq<char>> {
    match o {
        Some(s) => Some(s@),
        None => None,
    }
}

/// An absolute HTTP(S) URL.
pub open spec fn is_remote(u: Seq<char>) -> bool {
    occurs_at(u, "http://"@, 0) || occurs_at(u, "https://"@, 0)
}

/// What follows the last `/` of `u` (all of `u` where it has none).
pub open spec fn last_segment(u: Seq<char>) -> Seq<char>
    decreases u.len(),
{
    if u.len() == 0 || u.last() == '/' {
        Seq::empty()
    } else {
        last_segment(u.drop_last()).push(u.last())
    }
}

/// The name under which the image of `u` is stored.
pub open spec fn file_name_for(u: Seq<char>) -> Seq<char> {
    if last_segment(u).len() == 0 {
        "image.png"@
    } else {
        last_segment(u)
    }
}

/// `s` without the slashes it ends with.
pub open spec fn without_trailing_slashes(s: Seq<char>) -> Seq<char>
    decreases s.len(),
{
    if s.len() > 0 && s.last() == '/' {
        without_trailing_slashes(s.drop_last())
    } else {
        s
    }
}

/// The origin that relative references are resolved against, where a site
/// prefix that is not blank was given.
pub open spec fn site_origin(prefix: Option<Seq<char>>) -> Option<Seq<char>> {
    match prefix {
        Some(p) => if trimmed(p).len() > 0 {
            Some(without_trailing_slashes(trimmed(p)))
        } else {
            None
        },
        None => None,
    }
}

/// The directory prefix that marks a reference as already local.
pub open spec fn assets_prefix(assets: Seq<char>) -> Seq<char> {
    assets + "/"@
}

/// Where the image of `u` is downloaded from, or `None` where it is left as it is:
/// already local, or relative with no site prefix to resolve it.
pub open spec fn download_source(u: Seq<char>, assets: Seq<char>, prefix: Option<Seq<char>>) -> Option<
    Seq<char>,
> {
    if occurs_at(u, assets_prefix(assets), 0) {
        None
    } else if is_remote(u) {
        Some(u)
    } else {
        match site_origin(prefix) {
            Some(o) => Some(o + u),
            None => None,
        }
    }
}

/// What the reference `u` becomes.
pub open spec fn localized_url(u: Seq<char>, assets: Seq<char>, prefix: Option<Seq<char>>) -> Seq<
    char,
> {
    if download_source(u, assets, prefix) is Some {
        assets_prefix(assets) + file_name_for(u)
    } else {
        u
    }
}

/// `md` with, for each pair in order whose two sides differ, every occurrence of
/// the first side replaced by the second.
pub open spec fn rewrite_all(md: Seq<char>, pairs: Seq<(Seq<char>, Seq<char>)>) -> Seq<char>
    decreases pairs.len(),
{
    if pairs.len() == 0 {
        md
    } else {
        let m = rewrite_all(md, pairs.drop_last());
        let (from, to) = pairs.last();
        if from == to {
            m
        } else {
            replace_all(m, from, to)
        }
    }
}

/// Each reference paired with what it becomes.
pub open spec fn localize_pairs(urls: Seq<Seq<char>>, assets: Seq<char>, prefix: Option<Seq<char>>) -> Seq<
    (Seq<char>, Seq<char>),
> {
    urls.map_values(|u: Seq<char>| (u, localized_url(u, assets, prefix)))
}

/// The Markdown once its images are localized.
pub open spec fn localized_markdown(md: Seq<char>, assets: Seq<char>, prefix: Option<Seq<char>>) -> Seq<
    char,
> {
    rewrite_all(md, localize_pairs(image_references(md), assets, prefix))
}

/// What is done for one reference.
#[derive(Clone, Debug, PartialEq, Eq)]
pub enum LocalizeAction {
    /// The reference stays as it is.
    Keep,
    /// The image is downloaded from `source` and stored as `file_name`.
    Download { source: String, file_name: String },
}

/// One distinct image reference, what it becomes and how.
#[derive(Clone, Debug, PartialEq, Eq)]
pub struct LocalizeStep {
    pub url: String,
    pub target: String,
    pub action: LocalizeAction,
}

/// `step` is what localizing `u` asks for.
pub open spec fn step_for(step: LocalizeStep, u: Seq<char>, assets: Seq<char>, prefix: Option<Seq<char>>) -> bool {
    &&& step.url@ == u
    &&& step.target@ == localized_url(u, assets, prefix)
    &&& match step.action {
        LocalizeAction::Keep => download_source(u, assets, prefix) is None,
        LocalizeAction::Download { source, file_name } => download_source(u, assets, prefix)
            == Some(source@) && file_name@ == file_name_for(u),
    }
}

pub open spec fn step_pairs(steps: Seq<LocalizeStep>) -> Seq<(Seq<char>, Seq<char>)> {
    steps.map_values(|s: LocalizeStep| (s.url@, s.target@))
}

/// The work to localize one document.
#[derive(Clone, Debug, PartialEq, Eq)]
pub struct LocalizePlan {
    pub base_dir: String,
    pub assets_dir: String,
    pub steps: Vec<LocalizeStep>,
}

/// Why images could not be localized.
#[derive(Debug)]
pub enum LocalizeError {
    /// The document has not been saved, so it has no directory.
    MissingBaseDir { assets_dir: String },
}

/// What follows the last `/` of `u`.
pub fn last_segment_of(u: &Vec<char>) -> (r: String)
    ensures
        r@ == last_segment(u@),
{
    let mut j: usize = u.len();
    proof {
        assert(u@.subrange(0, u@.len() as int) =~= u@);
        assert(last_segment(u@) + u@.subrange(u@.len() as int, u@.len() as int) =~= last_segment(
            u@,
        ));
    }
    while j > 0 && u[j - 1] != '/'
        invariant
            j <= u@.len(),
            last_segment(u@) == last_segment(u@.subrange(0, j as int)) + u@.subrange(
                j as int,
                u@.len() as int,
            ),
        decreases j,
    {
        proof {
            let w = u@.subrange(0, j as int);
            assert(w.drop_last() =~= u@.subrange(0, j - 1));
            assert(u@.subrange(j - 1, u@.len() as int) =~= seq![u@[j - 1]] + u@.subrange(
                j as int,
                u@.len() as int,
            ));
            assert(last_segment(w) == last_segment(w.drop_last()).push(w.last()));
            assert(last_segment(w) + u@.subrange(j as int, u@.len() as int) =~= last_segment(
                u@.subrange(0, j - 1),
            ) + u@.subrange(j - 1, u@.len() as int));
        }
        j = j - 1;
    }
    proof {
        let w = u@.subrange(0, j as int);
        assert(last_segment(w) =~= Seq::<char>::empty());
        assert(Seq::<char>::empty() + u@.subrange(j as int, u@.len() as int) =~= u@.subrange(
            j as int,
            u@.len() as int,
        ));
    }
    string_of_range(u, j, u.len())
}

/// The name under which the image of `url` is stored.
pub fn file_name_for_url(url: &str) -> (r: String)
    ensures
        r@ == file_name_for(url@),
{
    let seg = last_segment_of(&chars_of(url));
    if seg.as_str().is_empty() {
        "image.png".to_string()
    } else {
        seg
    }
}

/// `s` without the slashes it ends with.
pub fn strip_trailing_slashes(s: &str) -> (r: String)
    ensures
        r@ == without_trailing_slashes(s@),
{
    let v = chars_of(s);
    let mut j: usize = v.len();
    proof {
        assert(v@.subrange(0, v@.len() as int) =~= v@);
    }
    while j > 0 && v[j - 1] == '/'
        invariant
            j <= v@.len(),
            without_trailing_slashes(v@) == without_trailing_slashes(v@.subrange(0, j as int)),
        decreases j,
    {
        proof {
            assert(v@.subrange(0, j as int).drop_last() =~= v@.subrange(0, j - 1));
        }
        j = j - 1;
    }
    string_of_range(&v, 0, j)
}

/// The origin for relative references, from the site prefix.
pub fn site_origin_of(prefix: &Option<String>) -> (r: Option<String>)
    ensures
        opt_view(r) == site_origin(opt_view(*prefix)),
{
    match prefix {
        Some(p) => {
            let t = trim_chars(p.as_str());
            if t.as_str().is_empty() {
                None
            } else {
                Some(strip_trailing_slashes(t.as_str()))
            }
        },
        None => None,
    }
}

/// Whether `u` is an absolute HTTP(S) URL.
pub fn is_remote_url(u: &Vec<char>) -> (r: bool)
    ensures
        r == is_remote(u@),
{
    let http = chars_of("http://");
    let https = chars_of("https://");
    starts_with(u, &http) || starts_with(u, &https)
}

fn concat(a: &str, b: &str) -> (r: String)
    ensures
        r@ == a@ + b@,
{
    let mut r = a.to_string();
    r.append(b);
    r
}

/// The step that localizing `url` asks for.
pub fn plan_step(url: &String, assets: &str, site_prefix: &Option<String>) -> (r: LocalizeStep)
    ensures
        step_for(r, url@, assets@, opt_view(*site_prefix)),
{
    let origin = site_origin_of(site_prefix);
    let u = chars_of(url.as_str());
    let mut local = assets.to_string();
    push_char(&mut local, '/');
    let local_chars = chars_of(local.as_str());
    proof {
        reveal_strlit("/");
        assert(local@ =~= assets_prefix(assets@));
    }
    let source = if starts_with(&u, &local_chars) {
        None
    } else if is_remote_url(&u) {
        Some(url.clone())
    } else {
        match &origin {
            Some(o) => Some(concat(o.as_str(), url.as_str())),
            None => None,
        }
    };
    match source {
        Some(source) => {
            let file_name = file_name_for_url(url.as_str());
            let target = concat(local.as_str(), file_name.as_str());
            LocalizeStep {
                url: url.clone(),
                target,
                action: LocalizeAction::Download { source, file_name },
            }
        },
        None => LocalizeStep { url: url.clone(), target: url.clone(), action: LocalizeAction::Keep },
    }
}

pub open spec fn pair_views(pairs: Seq<(String, String)>) -> Seq<(Seq<char>, Seq<char>)> {
    pairs.map_values(|p: (String, String)| (p.0@, p.1@))
}

/// `md` with each pair applied in order, as `rewrite_all` states.
pub fn apply_rewrites(md: &str, pairs: &Vec<(String, String)>) -> (r: String)
    ensures
        r@ == rewrite_all(md@, pair_views(pairs@)),
{
    let mut out = md.to_string();
    let mut i: usize = 0;
    while i < pairs.len()
        invariant
            i <= pairs@.len(),
            out@ == rewrite_all(md@, pair_views(pairs@.subrange(0, i as int))),
        decreases pairs@.len() - i,
    {
        proof {
            assert(pair_views(pairs@.subrange(0, i + 1)).drop_last() =~= pair_views(
                pairs@.subrange(0, i as int),
            ));
        }
        let (from, to) = &pairs[i];
        if *from != *to {
            out = replace_exec(out.as_str(), from.as_str(), to.as_str());
        }
        i = i + 1;
    }
    proof {
        assert(pairs@.subrange(0, pairs@.len() as int) =~= pairs@);
    }
    out
}

/// The step for each of `urls`, in order.
pub fn plan_steps(urls: &Vec<String>, assets: &str, site_prefix: &Option<String>) -> (r: Vec<
    LocalizeStep,
>)
    ensures
        r@.len() == urls@.len(),
        forall|i: int|
            0 <= i < r@.len() ==> step_for(
                #[trigger] r@[i],
                urls@[i]@,
                assets@,
                opt_view(*site_prefix),
            ),
{
    let mut steps: Vec<LocalizeStep> = Vec::new();
    let mut i: usize = 0;
    while i < urls.len()
        invariant
            i <= urls@.len(),
            steps@.len() == i,
            forall|k: int|
                0 <= k < i ==> step_for(
                    #[trigger] steps@[k],
                    urls@[k]@,
                    assets@,
                    opt_view(*site_prefix),
                ),
        decreases urls@.len() - i,
    {
        let step = plan_step(&urls[i], assets, site_prefix);
        steps.push(step);
        i = i + 1;
    }
    steps
}

/// Decides, for each distinct image reference of `markdown`, whether it is kept
/// or downloaded, from where, and what it becomes. Fails where no base directory
/// is given; the assets directory is `assets` unless another is given.
pub fn plan_localization(
    markdown: &str,
    base_dir: Option<String>,
    site_prefix: Option<String>,
    assets_dir: Option<String>,
) -> (r: Result<LocalizePlan, LocalizeError>)
    ensures
        base_dir is None <==> r is Err,
        r matches Err(LocalizeError::MissingBaseDir { assets_dir: d }) ==> d@ == match assets_dir {
            Some(a) => a@,
            None => "assets"@,
        },
        r matches Ok(plan) ==> {
            let assets = match assets_dir {
                Some(a) => a@,
                None => "assets"@,
            };
            &&& base_dir matches Some(b) && plan.base_dir@ == b@
            &&& plan.assets_dir@ == assets
            &&& plan.steps@.len() == image_references(markdown@).len()
            &&& forall|i: int|
                0 <= i < plan.steps@.len() ==> step_for(
                    #[trigger] plan.steps@[i],
                    image_references(markdown@)[i],
                    assets,
                    opt_view(site_prefix),
                )
        },
{
    let assets = match assets_dir {
        Some(a) => a,
        None => "assets".to_string(),
    };
    let base = match base_dir {
        Some(b) => b,
        None => {
            return Err(LocalizeError::MissingBaseDir { assets_dir: assets });
        },
    };
    let urls = image_urls(markdown);
    let steps = plan_steps(&urls, assets.as_str(), &site_prefix);
    proof {
        assert forall|i: int| 0 <= i < steps@.len() implies image_references(markdown@)[i]
            == urls@[i]@ by {
            assert(views(urls@)[i] == urls@[i]@);
        }
    }
    Ok(LocalizePlan { base_dir: base, assets_dir: assets, steps })
}

/// Rewrites `markdown` once the plan's downloads are stored: each reference of
/// the plan becomes its target.
pub fn apply_localization(markdown: &str, plan: &LocalizePlan) -> (r: String)
    ensures
        r@ == rewrite_all(markdown@, step_pairs(plan.steps@)),
{
    let mut pairs: Vec<(String, String)> = Vec::new();
    let mut i: usize = 0;
    while i < plan.steps.len()
        invariant
            i <= plan.steps@.len(),
            pair_views(pairs@) == step_pairs(plan.steps@.subrange(0, i as int)),
        decreases plan.steps@.len() - i,
    {
        let step = &plan.steps[i];
        let ghost before = pairs@;
        pairs.push((step.url.clone(), step.target.clone()));
        proof {
            assert(pair_views(pairs@) =~= pair_views(before).push((step.url@, step.target@)));
            assert(step_pairs(plan.steps@.subrange(0, i + 1)) =~= step_pairs(
                plan.steps@.subrange(0, i as int),
            ).push((step.url@, step.target@)));
        }
        i = i + 1;
    }
    proof {
        assert(plan.steps@.subrange(0, plan.steps@.len() as int) =~= plan.steps@);
    }
    apply_rewrites(markdown, &pairs)
}

/// The steps of a plan for `markdown`, applied, give the localized Markdown.
pub proof fn lemma_plan_localizes(
    markdown: Seq<char>,
    steps: Seq<LocalizeStep>,
    assets: Seq<char>,
    prefix: Option<Seq<char>>,
)
    requires
        steps.len() == image_references(markdown).len(),
        forall|i: int|
            0 <= i < steps.len() ==> step_for(
                #[trigger] steps[i],
                image_references(markdown)[i],
                assets,
                prefix,
            ),
    ensures
        rewrite_all(markdown, step_pairs(steps)) == localized_markdown(markdown, assets, prefix),
{
    assert(step_pairs(steps) =~= localize_pairs(image_references(markdown), assets, prefix));
}

/// A reference that was localized is kept by a second localization.
pub proof fn lemma_localized_url_is_kept(u: Seq<char>, assets: Seq<char>, prefix: Option<Seq<char>>)
    ensures
        download_source(localized_url(u, assets, prefix), assets, prefix) is None,
        localized_url(localized_url(u, assets, prefix), assets, prefix) == localized_url(
            u,
            assets,
            prefix,
        ),
{
    if download_source(u, assets, prefix) is Some {
        let t = localized_url(u, assets, prefix);
        let p = assets_prefix(assets);
        assert(t.subrange(0, p.len() as int) =~= p);
    }
}

/// Pairs whose two sides are equal change nothing.
proof fn lemma_rewrite_identity(md: Seq<char>, pairs: Seq<(Seq<char>, Seq<char>)>)
    requires
        forall|i: int| 0 <= i < pairs.len() ==> (#[trigger] pairs[i]).0 == pairs[i].1,
    ensures
        rewrite_all(md, pairs) == md,
    decreases pairs.len(),
{
    if pairs.len() > 0 {
        lemma_rewrite_identity(md, pairs.drop_last());
        assert(pairs.last() == pairs[pairs.len() - 1]);
    }
}

/// Localizing twice gives what localizing once gives, and the second time
/// nothing is downloaded, wherever the image references of the output are what
/// the first localization made of the input's references.
///
/// Without that condition the statement is false: every occurrence of a
/// reference is replaced, also inside other references. With a site prefix,
/// `![](http://h/b/a.png) ![](/a)` becomes `![](assetsassets/a.png) ![](assets/a)`,
/// whose first reference a second run downloads again.
pub proof fn lemma_localize_idempotent(markdown: Seq<char>, assets: Seq<char>, prefix: Option<Seq<char>>)
    requires
        forall|v: Seq<char>|
            #[trigger] image_references(localized_markdown(markdown, assets, prefix)).contains(v)
                ==> exists|u: Seq<char>|
                image_references(markdown).contains(u) && v == localized_url(u, assets, prefix),
    ensures
        ({
            let once = localized_markdown(markdown, assets, prefix);
            &&& localized_markdown(once, assets, prefix) == once
            &&& forall|v: Seq<char>|
                #[trigger] image_references(once).contains(v) ==> download_source(v, assets, prefix)
                    is None
        }),
{
    let once = localized_markdown(markdown, assets, prefix);
    let refs = image_references(once);
    assert forall|v: Seq<char>| #[trigger] refs.contains(v) implies download_source(v, assets, prefix)
        is None && localized_url(v, assets, prefix) == v by {
        let u = choose|u: Seq<char>|
            image_references(markdown).contains(u) && v == localized_url(u, assets, prefix);
        lemma_localized_url_is_kept(u, assets, prefix);
    }
    let pairs = localize_pairs(refs, assets, prefix);
    assert forall|i: int| 0 <= i < pairs.len() implies (#[trigger] pairs[i]).0 == pairs[i].1 by {
        assert(refs.contains(refs[i]));
    }
    lemma_rewrite_identity(once, pairs);
}

} // verus!
