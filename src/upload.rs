//! Publishing images to the media host: credentials, the log of earlier
//! uploads, where each image comes from, and the host's answers.

use vstd::prelude::*;
use crate::images::{image_references, image_urls};
use crate::localize::{
    apply_rewrites, file_name_for, file_name_for_url, is_remote, is_remote_url, opt_view,
    pair_views, rewrite_all, site_origin, site_origin_of,
};
use crate::models::{WechatUploadResponse, WechatUploadResult, WechatUploadResultEntry};
use crate::text::{
    chars_of, find_exec, lemma_find_from, line_pass, string_of_range, trim_chars, trimmed, views,
};

verus! {

/// The name of the log of completed uploads, in the document's directory.
pub const MEDIA_LOG_FILE: &'static str = "wechat_media_log.jsonl";

/// The credential to use: the argument without surrounding white space where
/// that is not empty, else the one from the environment.
pub open spec fn credential_choice(arg: Seq<char>, env: Option<Seq<char>>) -> Option<Seq<char>> {
    if trimmed(arg).len() > 0 {
        Some(trimmed(arg))
    } else {
        env
    }
}

/// Why publishing images failed.
#[derive(Debug)]
pub enum UploadError {
    /// Neither an application id nor one from the environment.
    MissingAppId,
    /// Neither an application secret nor one from the environment.
    MissingAppSecret,
    /// The host answered with an error code other than 0.
    Host { url: String, code: i32, message: String },
    /// The host answered with an HTTP status that is not a success.
    HttpStatus { url: String, status: u16 },
    /// The host's answer has no media id.
    MissingMediaId,
    /// The host's answer has no URL.
    MissingUrl,
}

/// The credential to use, as `credential_choice` states.
pub fn resolve_credential(arg: &str, env: Option<String>) -> (r: Option<String>)
    ensures
        opt_view(r) == credential_choice(arg@, opt_view(env)),
{
    let t = trim_chars(arg);
    if t.as_str().is_empty() {
        env
    } else {
        Some(t)
    }
}

/// The application id and secret to use; the id is looked at first.
pub fn resolve_credentials(
    app_id: &str,
    app_secret: &str,
    env_id: Option<String>,
    env_secret: Option<String>,
) -> (r: Result<(String, String), UploadError>)
    ensures
        credential_choice(app_id@, opt_view(env_id)) is None <==> r matches Err(
            UploadError::MissingAppId,
        ),
        credential_choice(app_id@, opt_view(env_id)) is Some && credential_choice(
            app_secret@,
            opt_view(env_secret),
        ) is None <==> r matches Err(UploadError::MissingAppSecret),
        credential_choice(app_id@, opt_view(env_id)) is Some && credential_choice(
            app_secret@,
            opt_view(env_secret),
        ) is Some ==> r is Ok,
        r matches Ok((id, secret)) ==> credential_choice(app_id@, opt_view(env_id)) == Some(id@)
            && credential_choice(app_secret@, opt_view(env_secret)) == Some(secret@),
{
    let id = match resolve_credential(app_id, env_id) {
        Some(id) => id,
        None => {
            return Err(UploadError::MissingAppId);
        },
    };
    let secret = match resolve_credential(app_secret, env_secret) {
        Some(secret) => secret,
        None => {
            return Err(UploadError::MissingAppSecret);
        },
    };
    Ok((id, secret))
}

/// A line without the `\r` it may end with.
pub open spec fn without_cr(l: Seq<char>) -> Seq<char> {
    if l.len() > 0 && l.last() == '\r' {
        l.drop_last()
    } else {
        l
    }
}

/// The lines that are not blank, each without a final `\r`.
pub open spec fn records_of(lines: Seq<Seq<char>>) -> Seq<Seq<char>>
    decreases lines.len(),
{
    if lines.len() == 0 {
        Seq::empty()
    } else {
        let l = without_cr(lines[0]);
        let rest = records_of(lines.drop_first());
        if trimmed(l).len() > 0 {
            seq![l] + rest
        } else {
            rest
        }
    }
}

/// The records of a log's text, one for each line that is not blank.
pub open spec fn log_records(s: Seq<char>) -> Seq<Seq<char>> {
    records_of(line_pass(s, 0))
}

/// The records of the log's text `content`, one for each line that is not
/// blank, in order.
pub fn log_lines(content: &str) -> (r: Vec<String>)
    ensures
        views(r@) == log_records(content@),
{
    let s = chars_of(content);
    let nl = chars_of("\n");
    let n = s.len();
    let mut out: Vec<String> = Vec::new();
    let mut pos: usize = 0;
    proof {
        reveal_strlit("\n");
        assert(nl@ =~= seq!['\n']);
        assert(views(out@) + records_of(line_pass(s@, 0)) =~= records_of(line_pass(s@, 0)));
    }
    while pos < n
        invariant
            s@ == content@,
            n == s@.len(),
            nl@ == seq!['\n'],
            pos <= n,
            log_records(s@) == views(out@) + records_of(line_pass(s@, pos as int)),
        decreases n - pos,
    {
        let end = match find_exec(&s, &nl, pos) {
            Some(i) => i,
            None => n,
        };
        proof {
            lemma_find_from(s@, seq!['\n'], pos as int);
        }
        let mut line_end = end;
        if line_end > pos && s[line_end - 1] == '\r' {
            line_end = line_end - 1;
        }
        let line = string_of_range(&s, pos, line_end);
        proof {
            let l = s@.subrange(pos as int, end as int);
            assert(line_pass(s@, pos as int) == seq![l] + line_pass(s@, end + 1));
            assert(line_pass(s@, pos as int).drop_first() =~= line_pass(s@, end + 1));
            assert(without_cr(l) =~= line@);
        }
        let ghost before = out@;
        if !trim_chars(line.as_str()).as_str().is_empty() {
            out.push(line);
            proof {
                assert(views(out@) =~= views(before) + seq![line@]);
            }
        }
        proof {
            assert(views(out@) + records_of(line_pass(s@, end + 1)) =~= views(before)
                + records_of(line_pass(s@, pos as int)));
        }
        pos = if end < n {
            end + 1
        } else {
            n
        };
    }
    proof {
        assert(views(out@) + Seq::<Seq<char>>::empty() =~= views(out@));
    }
    out
}

/// The index of the last record for `u` in `entries`.
pub open spec fn last_logged(entries: Seq<WechatUploadResultEntry>, u: Seq<char>) -> Option<int>
    decreases entries.len(),
{
    if entries.len() == 0 {
        None
    } else if entries.last().original_url@ == u {
        Some(entries.len() - 1)
    } else {
        last_logged(entries.drop_last(), u)
    }
}

proof fn lemma_last_logged(entries: Seq<WechatUploadResultEntry>, u: Seq<char>)
    ensures
        match last_logged(entries, u) {
            Some(i) => 0 <= i < entries.len() && entries[i].original_url@ == u,
            None => forall|i: int| 0 <= i < entries.len() ==> entries[i].original_url@ != u,
        },
    decreases entries.len(),
{
    if entries.len() > 0 {
        lemma_last_logged(entries.drop_last(), u);
        if entries.last().original_url@ != u {
            assert forall|i: int| 0 <= i < entries.len() - 1 implies entries[i] == entries.drop_last()[i] by {}
        }
    }
}

/// The most recent record of `url` among the logged ones.
pub fn find_logged(entries: &Vec<WechatUploadResultEntry>, url: &str) -> (r: Option<
    WechatUploadResultEntry,
>)
    ensures
        match last_logged(entries@, url@) {
            Some(i) => r matches Some(e) && e.original_url@ == entries@[i].original_url@
                && e.wechat_url@ == entries@[i].wechat_url@ && e.media_id@ == entries@[i].media_id@,
            None => r is None,
        },
{
    let wanted = url.to_string();
    let mut i: usize = entries.len();
    proof {
        assert(entries@.subrange(0, entries@.len() as int) =~= entries@);
    }
    while i > 0
        invariant
            wanted@ == url@,
            i <= entries@.len(),
            last_logged(entries@, url@) == last_logged(entries@.subrange(0, i as int), url@),
        decreases i,
    {
        let e = &entries[i - 1];
        proof {
            assert(entries@.subrange(0, i as int).last() == entries@[i - 1]);
        }
        if e.original_url == wanted {
            return Some(
                WechatUploadResultEntry {
                    original_url: e.original_url.clone(),
                    wechat_url: e.wechat_url.clone(),
                    media_id: e.media_id.clone(),
                },
            );
        }
        proof {
            assert(entries@.subrange(0, i as int).drop_last() =~= entries@.subrange(0, i - 1));
        }
        i = i - 1;
    }
    None
}

/// An image whose URL is in the log is not uploaded again: the step for it
/// reuses the hosted URL and media id of the latest record of that URL.
pub proof fn lemma_logged_image_is_reused(
    step: UploadStep,
    u: Seq<char>,
    logged: Seq<WechatUploadResultEntry>,
    prefix: Option<Seq<char>>,
    k: int,
)
    requires
        upload_step_for(step, u, logged, prefix),
        0 <= k < logged.len(),
        logged[k].original_url@ == u,
    ensures
        step matches UploadStep::Reuse(e) && e.original_url@ == u && exists|i: int|
            k <= i < logged.len() && logged[i].original_url@ == u && e.wechat_url@
                == logged[i].wechat_url@ && e.media_id@ == logged[i].media_id@,
{
    lemma_last_logged_is_latest(logged, u, k);
}

proof fn lemma_last_logged_is_latest(entries: Seq<WechatUploadResultEntry>, u: Seq<char>, k: int)
    requires
        0 <= k < entries.len(),
        entries[k].original_url@ == u,
    ensures
        last_logged(entries, u) matches Some(i) && k <= i < entries.len()
            && entries[i].original_url@ == u,
    decreases entries.len(),
{
    lemma_last_logged(entries, u);
    if entries.last().original_url@ != u {
        assert(k < entries.len() - 1);
        assert(entries.drop_last()[k] == entries[k]);
        lemma_last_logged_is_latest(entries.drop_last(), u, k);
    }
}

/// Where the bytes of an image that is not logged come from.
#[derive(Clone, Debug, PartialEq, Eq)]
pub enum ImageSource {
    /// Downloaded from `url`, and stored under `file_name`.
    Remote { url: String, file_name: String },
    /// Read from `path`, relative to the document's directory; where that fails,
    /// downloaded from `fallback`, a URL and the name to store it under.
    Local { path: String, fallback: Option<(String, String)> },
}

/// What follows when reading an image from disk fails.
#[derive(Clone, Debug, PartialEq, Eq)]
pub enum LocalReadFailed {
    /// The image is downloaded from `url` instead and stored as `file_name`.
    Download { url: String, file_name: String },
    /// A site prefix was given but is blank: the failed read is the error.
    BlankPrefix,
    /// No site prefix was given: the error says no download could be tried.
    NoPrefix,
}

/// Decides what follows a failed read of a local image: its fallback download
/// where it has one, else which error is given.
pub fn after_local_read_failed(fallback: &Option<(String, String)>, site_prefix: &Option<String>) -> (r:
    LocalReadFailed)
    ensures
        match fallback {
            Some((u, f)) => r matches LocalReadFailed::Download { url, file_name } && url@ == u@
                && file_name@ == f@,
            None => if site_prefix is Some {
                r is BlankPrefix
            } else {
                r is NoPrefix
            },
        },
{
    match fallback {
        Some((u, f)) => LocalReadFailed::Download { url: u.clone(), file_name: f.clone() },
        None => match site_prefix {
            Some(_) => LocalReadFailed::BlankPrefix,
            None => LocalReadFailed::NoPrefix,
        },
    }
}

/// What is done for one distinct image reference.
#[derive(Clone, Debug, PartialEq, Eq)]
pub enum UploadStep {
    /// The image was uploaded before: its record is used again.
    Reuse(WechatUploadResultEntry),
    /// The image's bytes are fetched and uploaded.
    Upload(ImageSource),
}

/// `step` is what publishing `u` asks for, given the logged records.
pub open spec fn upload_step_for(
    step: UploadStep,
    u: Seq<char>,
    logged: Seq<WechatUploadResultEntry>,
    prefix: Option<Seq<char>>,
) -> bool {
    match last_logged(logged, u) {
        Some(i) => step matches UploadStep::Reuse(e) && e.original_url@ == u && e.wechat_url@
            == logged[i].wechat_url@ && e.media_id@ == logged[i].media_id@,
        None => if is_remote(u) {
            step matches UploadStep::Upload(ImageSource::Remote { url, file_name }) && url@ == u
                && file_name@ == file_name_for(u)
        } else {
            step matches UploadStep::Upload(ImageSource::Local { path, fallback }) && path@ == u
                && match site_origin(prefix) {
                Some(o) => fallback matches Some((f, name)) && f@ == o + u && name@
                    == file_name_for(u),
                None => fallback is None,
            }
        },
    }
}

/// Decides what publishing the reference `url` asks for: the logged record where
/// there is one (no upload), else where its bytes come from.
pub fn plan_upload_step(
    url: &String,
    logged: &Vec<WechatUploadResultEntry>,
    site_prefix: &Option<String>,
) -> (r: UploadStep)
    ensures
        upload_step_for(r, url@, logged@, opt_view(*site_prefix)),
{
    proof {
        lemma_last_logged(logged@, url@);
    }
    if let Some(e) = find_logged(logged, url.as_str()) {
        return UploadStep::Reuse(e);
    }
    let u = chars_of(url.as_str());
    if is_remote_url(&u) {
        UploadStep::Upload(
            ImageSource::Remote { url: url.clone(), file_name: file_name_for_url(url.as_str()) },
        )
    } else {
        let fallback = match site_origin_of(site_prefix) {
            Some(o) => {
                let mut full = o.clone();
                full.append(url.as_str());
                Some((full, file_name_for_url(url.as_str())))
            },
            None => None,
        };
        UploadStep::Upload(ImageSource::Local { path: url.clone(), fallback })
    }
}

/// Each of `urls` with the step that publishing it asks for, in order.
pub fn plan_upload_steps(
    urls: &Vec<String>,
    logged: &Vec<WechatUploadResultEntry>,
    site_prefix: &Option<String>,
) -> (r: Vec<(String, UploadStep)>)
    ensures
        r@.len() == urls@.len(),
        forall|i: int|
            0 <= i < r@.len() ==> (#[trigger] r@[i]).0@ == urls@[i]@ && upload_step_for(
                r@[i].1,
                urls@[i]@,
                logged@,
                opt_view(*site_prefix),
            ),
{
    let mut steps: Vec<(String, UploadStep)> = Vec::new();
    let mut i: usize = 0;
    while i < urls.len()
        invariant
            i <= urls@.len(),
            steps@.len() == i,
            forall|k: int|
                0 <= k < i ==> (#[trigger] steps@[k]).0@ == urls@[k]@ && upload_step_for(
                    steps@[k].1,
                    urls@[k]@,
                    logged@,
                    opt_view(*site_prefix),
                ),
        decreases urls@.len() - i,
    {
        let step = plan_upload_step(&urls[i], logged, site_prefix);
        steps.push((urls[i].clone(), step));
        i = i + 1;
    }
    steps
}

/// Decides, for each distinct image reference of `markdown`, what publishing it
/// asks for. No reference, no step.
pub fn plan_publish(
    markdown: &str,
    logged: &Vec<WechatUploadResultEntry>,
    site_prefix: &Option<String>,
) -> (steps: Vec<(String, UploadStep)>)
    ensures
        steps@.len() == image_references(markdown@).len(),
        forall|i: int|
            0 <= i < steps@.len() ==> (#[trigger] steps@[i]).0@ == image_references(markdown@)[i]
                && upload_step_for(
                steps@[i].1,
                image_references(markdown@)[i],
                logged@,
                opt_view(*site_prefix),
            ),
{
    let urls = image_urls(markdown);
    let steps = plan_upload_steps(&urls, logged, site_prefix);
    proof {
        assert forall|i: int| 0 <= i < steps@.len() implies image_references(markdown@)[i]
            == urls@[i]@ by {
            assert(views(urls@)[i] == urls@[i]@);
        }
    }
    steps
}

/// Checks the host's answer to the upload of `url`: an error code other than 0
/// comes first, then the HTTP status, then the media id and the URL.
pub fn check_upload_response(
    url: &str,
    http_success: bool,
    status: u16,
    response: WechatUploadResponse,
) -> (r: Result<WechatUploadResultEntry, UploadError>)
    ensures
        match response.errcode {
            Some(c) if c != 0 => r matches Err(UploadError::Host { url: u, code, message })
                && u@ == url@ && code == c && message@ == match response.errmsg {
                Some(m) => m@,
                None => Seq::empty(),
            },
            _ => if !http_success {
                r matches Err(UploadError::HttpStatus { url: u, status: s }) && u@ == url@ && s
                    == status
            } else {
                match (response.media_id, response.url) {
                    (None, _) => r matches Err(UploadError::MissingMediaId),
                    (Some(_), None) => r matches Err(UploadError::MissingUrl),
                    (Some(m), Some(w)) => r matches Ok(e) && e.original_url@ == url@
                        && e.wechat_url@ == w@ && e.media_id@ == m@,
                }
            },
        },
{
    if let Some(code) = response.errcode {
        if code != 0 {
            let message = match response.errmsg {
                Some(m) => m,
                None => String::new(),
            };
            return Err(UploadError::Host { url: url.to_string(), code, message });
        }
    }
    if !http_success {
        return Err(UploadError::HttpStatus { url: url.to_string(), status });
    }
    let media_id = match response.media_id {
        Some(m) => m,
        None => {
            return Err(UploadError::MissingMediaId);
        },
    };
    let wechat_url = match response.url {
        Some(w) => w,
        None => {
            return Err(UploadError::MissingUrl);
        },
    };
    Ok(WechatUploadResultEntry { original_url: url.to_string(), wechat_url, media_id })
}

pub open spec fn entry_pairs(items: Seq<WechatUploadResultEntry>) -> Seq<(Seq<char>, Seq<char>)> {
    items.map_values(|e: WechatUploadResultEntry| (e.original_url@, e.wechat_url@))
}

/// The result of a publication: `markdown` with each record's original URL
/// replaced by its hosted URL, in the order of the records, and the records.
pub fn finish_publish(markdown: &str, items: Vec<WechatUploadResultEntry>) -> (r: WechatUploadResult)
    ensures
        r.markdown@ == rewrite_all(markdown@, entry_pairs(items@)),
        r.items@ == items@,
{
    let mut pairs: Vec<(String, String)> = Vec::new();
    let mut i: usize = 0;
    while i < items.len()
        invariant
            i <= items@.len(),
            pair_views(pairs@) == entry_pairs(items@.subrange(0, i as int)),
        decreases items@.len() - i,
    {
        let ghost before = pairs@;
        pairs.push((items[i].original_url.clone(), items[i].wechat_url.clone()));
        proof {
            assert(pair_views(pairs@) =~= pair_views(before).push(
                (items@[i as int].original_url@, items@[i as int].wechat_url@),
            ));
            assert(entry_pairs(items@.subrange(0, i + 1)) =~= entry_pairs(
                items@.subrange(0, i as int),
            ).push((items@[i as int].original_url@, items@[i as int].wechat_url@)));
        }
        i = i + 1;
    }
    proof {
        assert(items@.subrange(0, items@.len() as int) =~= items@);
    }
    let markdown = apply_rewrites(markdown, &pairs);
    WechatUploadResult { markdown, items }
}

} // verus!
