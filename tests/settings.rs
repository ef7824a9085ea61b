use wechat_markdown::settings::{
    chat_completions_url, cover_file_name, generate_content_url, non_blank, setting_or, summary_of_answer,
    summary_prompt, upload_endpoint,
};

#[test]
fn blank_settings_fall_back() {
    assert_eq!(non_blank(Some("  key ".to_string())), Some("key".to_string()));
    assert_eq!(non_blank(Some(" \n".to_string())), None);
    assert_eq!(non_blank(None), None);
    assert_eq!(setting_or(Some("".to_string()), "deepseek-chat"), "deepseek-chat");
    assert_eq!(setting_or(Some(" m ".to_string()), "deepseek-chat"), "m");
}

#[test]
fn endpoints_are_joined_without_double_slashes() {
    assert_eq!(chat_completions_url("https://api.deepseek.com/v1//"), "https://api.deepseek.com/v1/chat/completions");
    assert_eq!(
        generate_content_url("https://g.example/", "gemini-x"),
        "https://g.example/v1beta/models/gemini-x:generateContent"
    );
    assert_eq!(
        upload_endpoint("T0K"),
        "https://api.weixin.qq.com/cgi-bin/material/add_material?access_token=T0K&type=image"
    );
}

#[test]
fn summaries_are_trimmed_and_cut() {
    assert_eq!(summary_of_answer("  short answer \n"), "short answer");
    let long: String = std::iter::repeat('字').take(150).collect();
    let cut = summary_of_answer(&long);
    assert_eq!(cut.chars().count(), 100);
    assert!(summary_prompt("# T").ends_with("只输出摘要内容：\n\n# T"));
}

#[test]
fn cover_names_carry_the_time() {
    assert_eq!(cover_file_name(1700000000123), "cover-1700000000123.png");
    assert_eq!(cover_file_name(0), "cover-0.png");
}
