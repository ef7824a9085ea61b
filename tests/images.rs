use wechat_markdown::localize::plan_steps;
use wechat_markdown::images::distinct_urls;
use wechat_markdown::images::image_urls;
use wechat_markdown::localize::{
    apply_localization, file_name_for_url, plan_localization, LocalizeAction, LocalizeError,
};

#[test]
fn image_urls_are_distinct_and_ordered() {
    let md = "![a](http://h/x.png) text ![b](y.png) ![c](http://h/x.png) [not](z.png)";
    let urls = image_urls(md);
    assert_eq!(urls, vec!["http://h/x.png".to_string(), "y.png".to_string()]);
}

#[test]
fn file_names_come_from_last_segment() {
    assert_eq!(file_name_for_url("http://h/a/b.png"), "b.png");
    assert_eq!(file_name_for_url("http://h/a/"), "image.png");
    assert_eq!(file_name_for_url("plain"), "plain");
}

#[test]
fn localize_needs_base_dir() {
    let r = plan_localization("![a](http://h/x.png)", None, None, None);
    match r {
        Err(LocalizeError::MissingBaseDir { assets_dir }) => assert_eq!(assets_dir, "assets"),
        _ => panic!("expected a missing base directory"),
    }
}

#[test]
fn localize_plans_each_kind_of_reference() {
    let md = "![a](http://h/p/x.png) ![b](assets/y.png) ![c](/rel/z.png)";
    let plan = plan_localization(md, Some("/doc".to_string()), Some(" https://site.org/ ".to_string()), None).unwrap();
    assert_eq!(plan.base_dir, "/doc");
    assert_eq!(plan.assets_dir, "assets");
    assert_eq!(plan.steps.len(), 3);
    assert_eq!(
        plan.steps[0].action,
        LocalizeAction::Download { source: "http://h/p/x.png".to_string(), file_name: "x.png".to_string() }
    );
    assert_eq!(plan.steps[0].target, "assets/x.png");
    assert_eq!(plan.steps[1].action, LocalizeAction::Keep);
    assert_eq!(plan.steps[1].target, "assets/y.png");
    assert_eq!(
        plan.steps[2].action,
        LocalizeAction::Download { source: "https://site.org/rel/z.png".to_string(), file_name: "z.png".to_string() }
    );
    let out = apply_localization(md, &plan);
    assert_eq!(out, "![a](assets/x.png) ![b](assets/y.png) ![c](assets/z.png)");
}

#[test]
fn localize_keeps_relative_without_prefix() {
    let md = "![c](rel/z.png)";
    let plan = plan_localization(md, Some("/doc".to_string()), Some("   ".to_string()), Some("media".to_string())).unwrap();
    assert_eq!(plan.steps[0].action, LocalizeAction::Keep);
    assert_eq!(apply_localization(md, &plan), md);
}

#[test]
fn localize_uses_given_assets_dir() {
    let md = "![a](http://h/x.png) ![b](media/y.png)";
    let plan = plan_localization(md, Some("/doc".to_string()), None, Some("media".to_string())).unwrap();
    assert_eq!(plan.steps[0].target, "media/x.png");
    assert_eq!(plan.steps[1].action, LocalizeAction::Keep);
}

#[test]
fn localizing_twice_changes_nothing_more() {
    let md = "# T\n![a](http://h/x.png) and ![b](https://h/q/) and ![c](local.png)";
    let base = Some("/doc".to_string());
    let plan = plan_localization(md, base.clone(), None, None).unwrap();
    let once = apply_localization(md, &plan);
    assert_eq!(once, "# T\n![a](assets/x.png) and ![b](assets/image.png) and ![c](local.png)");
    let again = plan_localization(&once, base, None, None).unwrap();
    assert!(again.steps.iter().all(|s| s.action == LocalizeAction::Keep));
    assert_eq!(apply_localization(&once, &again), once);
}

#[test]
fn distinct_urls_skip_missing_and_repeated() {
    let caps = vec![Some("a".to_string()), None, Some("b".to_string()), Some("a".to_string())];
    assert_eq!(distinct_urls(&caps), vec!["a".to_string(), "b".to_string()]);
    assert!(distinct_urls(&Vec::new()).is_empty());
}

#[test]
fn plan_steps_follow_the_given_urls() {
    let urls = vec!["https://h/x.gif".to_string(), "assets/y.png".to_string()];
    let steps = plan_steps(&urls, "assets", &None);
    assert_eq!(steps.len(), 2);
    assert_eq!(steps[0].url, "https://h/x.gif");
    assert_eq!(steps[0].target, "assets/x.gif");
    assert_eq!(steps[1].action, LocalizeAction::Keep);
}

#[test]
fn missing_base_dir_names_given_assets_dir() {
    match plan_localization("![a](http://h/x.png)", None, None, Some("media".to_string())) {
        Err(LocalizeError::MissingBaseDir { assets_dir }) => assert_eq!(assets_dir, "media"),
        _ => panic!("expected a missing base directory"),
    }
}
