use wechat_markdown::upload::plan_upload_steps;
use wechat_markdown::upload::{
    after_local_read_failed, LocalReadFailed,
    check_upload_response, finish_publish, log_lines, plan_publish, plan_upload_step,
    resolve_credential, resolve_credentials, ImageSource, UploadError, UploadStep,
};
use wechat_markdown::{WechatUploadResponse, WechatUploadResultEntry};

fn entry(o: &str, w: &str, m: &str) -> WechatUploadResultEntry {
    WechatUploadResultEntry { original_url: o.to_string(), wechat_url: w.to_string(), media_id: m.to_string() }
}

#[test]
fn logged_image_is_reused_without_upload() {
    let logged = vec![entry("http://h/u.png", "https://mmbiz/old", "m0"), entry("http://h/u.png", "https://mmbiz/new", "m1")];
    let steps = plan_publish("see ![u](http://h/u.png)", &logged, &None);
    assert_eq!(steps.len(), 1);
    assert_eq!(steps[0].0, "http://h/u.png");
    assert_eq!(steps[0].1, UploadStep::Reuse(entry("http://h/u.png", "https://mmbiz/new", "m1")));
    let result = finish_publish("see ![u](http://h/u.png)", vec![entry("http://h/u.png", "https://mmbiz/new", "m1")]);
    assert_eq!(result.markdown, "see ![u](https://mmbiz/new)");
    assert_eq!(result.items.len(), 1);
}

#[test]
fn no_images_means_no_steps() {
    let steps = plan_publish("# nothing here", &Vec::new(), &None);
    assert!(steps.is_empty());
    let result = finish_publish("# nothing here", Vec::new());
    assert_eq!(result.markdown, "# nothing here");
    assert!(result.items.is_empty());
}

#[test]
fn unlogged_images_are_fetched_from_their_source() {
    let remote = plan_upload_step(&"https://h/a/b.jpg".to_string(), &Vec::new(), &None);
    assert_eq!(remote, UploadStep::Upload(ImageSource::Remote { url: "https://h/a/b.jpg".to_string(), file_name: "b.jpg".to_string() }));
    let local = plan_upload_step(&"img/c.png".to_string(), &Vec::new(), &Some("https://site/".to_string()));
    assert_eq!(
        local,
        UploadStep::Upload(ImageSource::Local {
            path: "img/c.png".to_string(),
            fallback: Some(("https://siteimg/c.png".to_string(), "c.png".to_string())),
        })
    );
    let bare = plan_upload_step(&"img/c.png".to_string(), &Vec::new(), &Some("  ".to_string()));
    assert_eq!(bare, UploadStep::Upload(ImageSource::Local { path: "img/c.png".to_string(), fallback: None }));
}

#[test]
fn credentials_prefer_arguments() {
    assert_eq!(resolve_credential("  id1 ", Some("env".to_string())), Some("id1".to_string()));
    assert_eq!(resolve_credential(" \t", Some("env".to_string())), Some("env".to_string()));
    assert_eq!(resolve_credential("", None), None);
    assert!(matches!(resolve_credentials("", "s", None, None), Err(UploadError::MissingAppId)));
    assert!(matches!(resolve_credentials("i", " ", None, None), Err(UploadError::MissingAppSecret)));
    let (id, secret) = resolve_credentials(" i ", "", None, Some("es".to_string())).unwrap();
    assert_eq!((id.as_str(), secret.as_str()), ("i", "es"));
}

#[test]
fn log_records_skip_blank_lines() {
    let text = "{\"a\":1}\r\n\n   \n{\"b\":2}\n{\"c\":3}";
    assert_eq!(log_lines(text), vec!["{\"a\":1}".to_string(), "{\"b\":2}".to_string(), "{\"c\":3}".to_string()]);
    assert!(log_lines("").is_empty());
}

fn response(media_id: Option<&str>, url: Option<&str>, errcode: Option<i32>, errmsg: Option<&str>) -> WechatUploadResponse {
    WechatUploadResponse {
        media_id: media_id.map(|s| s.to_string()),
        url: url.map(|s| s.to_string()),
        errcode,
        errmsg: errmsg.map(|s| s.to_string()),
    }
}

#[test]
fn upload_answers_are_checked() {
    let ok = check_upload_response("u", true, 200, response(Some("m"), Some("w"), Some(0), None)).unwrap();
    assert_eq!(ok, entry("u", "w", "m"));
    match check_upload_response("u", true, 200, response(Some("m"), Some("w"), Some(40001), Some("bad"))) {
        Err(UploadError::Host { url, code, message }) => {
            assert_eq!((url.as_str(), code, message.as_str()), ("u", 40001, "bad"));
        }
        other => panic!("unexpected {:?}", other),
    }
    assert!(matches!(check_upload_response("u", false, 500, response(Some("m"), Some("w"), None, None)), Err(UploadError::HttpStatus { status: 500, .. })));
    assert!(matches!(check_upload_response("u", true, 200, response(None, Some("w"), None, None)), Err(UploadError::MissingMediaId)));
    assert!(matches!(check_upload_response("u", true, 200, response(Some("m"), None, None, None)), Err(UploadError::MissingUrl)));
}

#[test]
fn upload_steps_follow_the_given_urls() {
    let logged = vec![entry("a.png", "https://mmbiz/a", "ma")];
    let urls = vec!["a.png".to_string(), "http://h/b.png".to_string()];
    let steps = plan_upload_steps(&urls, &logged, &None);
    assert_eq!(steps[0], ("a.png".to_string(), UploadStep::Reuse(entry("a.png", "https://mmbiz/a", "ma"))));
    assert_eq!(
        steps[1],
        ("http://h/b.png".to_string(), UploadStep::Upload(ImageSource::Remote { url: "http://h/b.png".to_string(), file_name: "b.png".to_string() }))
    );
}

#[test]
fn publish_rewrites_every_occurrence() {
    let md = "![a](x.png) ![b](x.png) ![c](y.png)";
    let result = finish_publish(md, vec![entry("x.png", "https://h/1", "m1"), entry("y.png", "https://h/2", "m2")]);
    assert_eq!(result.markdown, "![a](https://h/1) ![b](https://h/1) ![c](https://h/2)");
    assert_eq!(result.items.len(), 2);
}

#[test]
fn failed_local_read_falls_back_or_names_the_error() {
    let fb = Some(("https://s/x.png".to_string(), "x.png".to_string()));
    assert_eq!(
        after_local_read_failed(&fb, &Some("https://s".to_string())),
        LocalReadFailed::Download { url: "https://s/x.png".to_string(), file_name: "x.png".to_string() }
    );
    assert_eq!(after_local_read_failed(&None, &Some(" ".to_string())), LocalReadFailed::BlankPrefix);
    assert_eq!(after_local_read_failed(&None, &None), LocalReadFailed::NoPrefix);
}
