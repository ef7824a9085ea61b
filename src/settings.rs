//! Service settings with defaults, endpoints, and what is kept of answers.

use vstd::prelude::*;
use crate::localize::{opt_view, strip_trailing_slashes, without_trailing_slashes};
use crate::text::{chars_of, decimal, decimal_string, push_range, trim_chars, trimmed};

verus! {

/// A setting that was given and is not blank, without surrounding white space.
pub open spec fn given(value: Option<Seq<char>>) -> Option<Seq<char>> {
    match value {
        Some(v) => if trimmed(v).len() > 0 {
            Some(trimmed(v))
        } else {
            None
        },
        None => None,
    }
}

/// The setting without surrounding white space, where it is given and not blank.
pub fn non_blank(value: Option<String>) -> (r: Option<String>)
    ensures
        opt_view(r) == given(opt_view(value)),
{
    match value {
        Some(v) => {
            let t = trim_chars(v.as_str());
            if t.as_str().is_empty() {
                None
            } else {
                Some(t)
            }
        },
        None => None,
    }
}

/// The setting where it is given and not blank, else `default`.
pub fn setting_or(value: Option<String>, default: &str) -> (r: String)
    ensures
        r@ == match given(opt_view(value)) {
            Some(v) => v,
            None => default@,
        },
{
    match non_blank(value) {
        Some(v) => v,
        None => default.to_string(),
    }
}

fn strip_slashes_then(base: &str, tail: &str) -> (r: String)
    ensures
        r@ == without_trailing_slashes(base@) + tail@,
{
    let mut r = strip_trailing_slashes(base);
    r.append(tail);
    r
}

/// The chat completion endpoint under the API base URL `base`.
pub fn chat_completions_url(base: &str) -> (r: String)
    ensures
        r@ == without_trailing_slashes(base@) + "/chat/completions"@,
{
    strip_slashes_then(base, "/chat/completions")
}

/// The image generation endpoint for `model` under the API base URL `base`.
pub fn generate_content_url(base: &str, model: &str) -> (r: String)
    ensures
        r@ == without_trailing_slashes(base@) + "/v1beta/models/"@ + model@ + ":generateContent"@,
{
    let mut r = strip_slashes_then(base, "/v1beta/models/");
    r.append(model);
    r.append(":generateContent");
    r
}

/// The media host's endpoint that stores an image, for the token `token`.
pub fn upload_endpoint(token: &str) -> (r: String)
    ensures
        r@ == "https://api.weixin.qq.com/cgi-bin/material/add_material?access_token="@ + token@
            + "&type=image"@,
{
    let mut r = "https://api.weixin.qq.com/cgi-bin/material/add_material?access_token=".to_string();
    r.append(token);
    r.append("&type=image");
    r
}

/// The request that asks for a summary of `markdown`.
pub fn summary_prompt(markdown: &str) -> (r: String)
    ensures
        r@ == "请根据以下微信公众号 Markdown 内容生成一个中文摘要，不超过100个汉字，不要换行，只输出摘要内容：\n\n"@
            + markdown@,
{
    let mut r = "请根据以下微信公众号 Markdown 内容生成一个中文摘要，不超过100个汉字，不要换行，只输出摘要内容：\n\n".to_string();
    r.append(markdown);
    r
}

/// A summary as it is kept: the answer without surrounding white space, cut to
/// its first 100 characters.
pub fn summary_of_answer(answer: &str) -> (r: String)
    ensures
        r@ == if trimmed(answer@).len() > 100 {
            trimmed(answer@).subrange(0, 100)
        } else {
            trimmed(answer@)
        },
{
    let t = chars_of(trim_chars(answer).as_str());
    let end: usize = if t.len() > 100 {
        100
    } else {
        t.len()
    };
    let mut r = String::new();
    push_range(&mut r, &t, 0, end);
    proof {
        assert(Seq::<char>::empty() + t@.subrange(0, end as int) =~= t@.subrange(0, end as int));
        assert(t@.subrange(0, t@.len() as int) =~= t@);
    }
    r
}

/// The name of a cover image made at `millis`.
pub fn cover_file_name(millis: u64) -> (r: String)
    ensures
        r@ == "cover-"@ + decimal(millis as nat) + ".png"@,
{
    let mut r = "cover-".to_string();
    r.append(decimal_string(millis).as_str());
    r.append(".png");
    r
}

} // verus!
