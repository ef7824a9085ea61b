use wechat_markdown::generate_image_prompt_from_markdown;
use wechat_markdown::token::{check_token_response, token_preview, token_validity_secs, TokenCache, TokenError};
use wechat_markdown::WechatTokenResponse;

#[test]
fn token_is_refetched_once_margin_is_reached() {
    let mut cache = TokenCache::new();
    assert_eq!(cache.cached_token(0), None);
    let t0: u64 = 5_000;
    cache.store("tok".to_string(), t0, token_validity_secs(Some(120)));
    assert_eq!(cache.cached_token(t0 + 59_000), Some("tok".to_string()));
    assert_eq!(cache.cached_token(t0 + 59_999), Some("tok".to_string()));
    assert_eq!(cache.cached_token(t0 + 60_000), None);
    assert_eq!(cache.cached_token(t0 + 61_000), None);
}

#[test]
fn token_validity_has_floor_and_default() {
    assert_eq!(token_validity_secs(Some(120)), 60);
    assert_eq!(token_validity_secs(None), 7140);
    assert_eq!(token_validity_secs(Some(30)), 0);
    assert_eq!(token_validity_secs(Some(-5)), 0);
}

#[test]
fn token_answers_are_checked() {
    let good = WechatTokenResponse { access_token: Some("abc".to_string()), expires_in: Some(7200), errcode: None, errmsg: None };
    assert_eq!(check_token_response(good), Ok(("abc".to_string(), 7140)));
    let bad = WechatTokenResponse { access_token: None, expires_in: None, errcode: Some(40013), errmsg: Some("invalid appid".to_string()) };
    assert_eq!(check_token_response(bad), Err(TokenError::Host { code: 40013, message: "invalid appid".to_string() }));
    let empty = WechatTokenResponse { access_token: None, expires_in: None, errcode: Some(0), errmsg: None };
    assert_eq!(check_token_response(empty), Err(TokenError::MissingToken));
}

#[test]
fn token_preview_shortens_long_tokens() {
    assert_eq!(token_preview("ABCDEFGHIJKLMNOP"), "ABCDEF...MNOP");
    assert_eq!(token_preview("short"), "short");
    assert_eq!(token_preview("ABCDEFGHIJKL"), "ABCDEFGHIJKL");
}

#[test]
fn test_generate_image_prompt() {
    let markdown = r#"# 人工智能的未来

随着深度学习技术的发展，AI正在改变我们的生活。本文将探讨AI技术的最新进展和未来趋势。"#;
    let prompt = generate_image_prompt_from_markdown(markdown);
    println!("生成的图片提示词:");
    println!("{}", prompt);
    assert!(prompt.contains("人工智能的未来"));
    assert!(prompt.contains("WeChat article"));
}

#[test]
fn prompt_uses_default_title_without_heading() {
    let prompt = generate_image_prompt_from_markdown("## Sub\ntext\n#nospace");
    assert!(prompt.contains("titled '微信公众号文章'"));
    let nested = generate_image_prompt_from_markdown("intro\n  # # Deep  \n# Later");
    assert!(nested.contains("titled 'Deep'"));
}
