use dy_xhs::xbogus::generate_xb_at;
use dy_xhs::douyin::{
    aweme_step, author_dir_name, classify_post_page, contains_text, decimal_text, monitor_link,
    post_list_params, post_list_params_at, post_list_query, short_sec_uid, AwemeAction, LinkError, MonitorLink,
    PageStatus,
};

#[test]
fn monitor_link_douyin_user() {
    let link = monitor_link("https://www.douyin.com/user/MS4wLjABAAAA5fOsk_-x9?from_tab_name=main");
    assert_eq!(link, Ok(MonitorLink::DouyinUser(String::from("MS4wLjABAAAA5fOsk_-x9"))));
    let link = monitor_link("douyin.com/user/a|b-c d");
    assert_eq!(link, Ok(MonitorLink::DouyinUser(String::from("a|b-c"))));
}

#[test]
fn monitor_link_other_sites() {
    assert_eq!(monitor_link("https://www.xiaohongshu.com/user/profile/1"), Ok(MonitorLink::Other));
    assert_eq!(monitor_link(""), Ok(MonitorLink::Other));
    assert_eq!(monitor_link("douyin.co/user/x"), Ok(MonitorLink::Other));
}

#[test]
fn monitor_link_douyin_without_user() {
    assert_eq!(monitor_link("https://www.douyin.com/video/123"), Err(LinkError::NoUserId));
    assert_eq!(monitor_link("https://www.douyin.com/user/"), Err(LinkError::NoUserId));
}

#[test]
fn contains_text_cases() {
    assert!(contains_text("www.douyin.com/x", "douyin.com"));
    assert!(contains_text("abc", ""));
    assert!(contains_text("", ""));
    assert!(!contains_text("ab", "abc"));
    assert!(!contains_text("douyin.co", "douyin.com"));
    assert!(contains_text("\u{4e2d}douyin.com", "douyin.com"));
}

#[test]
fn decimal_text_values() {
    assert_eq!(decimal_text(0), "0");
    assert_eq!(decimal_text(7), "7");
    assert_eq!(decimal_text(10), "10");
    assert_eq!(decimal_text(1700000000123), "1700000000123");
    assert_eq!(decimal_text(u64::MAX), u64::MAX.to_string());
}

#[test]
fn post_list_query_text() {
    assert_eq!(
        post_list_query("MS4wLjABAAAA", 1700000000000),
        "aid=6383&sec_user_id=MS4wLjABAAAA&count=20&max_cursor=1700000000000&cookie_enabled=true&platform=PC&downlink=10"
    );
    assert_eq!(
        post_list_query("", 0),
        "aid=6383&sec_user_id=&count=20&max_cursor=0&cookie_enabled=true&platform=PC&downlink=10"
    );
}

#[test]
fn post_list_params_shape() {
    let params = post_list_params("MS4wLjABAAAA", 0).unwrap();
    assert_eq!(params.len(), 28 + "&X-Bogus=".len() + 28);
    assert_eq!(&params[28..37], "&X-Bogus=");
    assert!(params[..28].starts_with("DFSzswVu"));
    assert!(params[37..].starts_with("DFSzswVu"));
}

#[test]
fn classify_post_page_cases() {
    assert_eq!(classify_post_page(0, 3), PageStatus::Usable);
    assert_eq!(classify_post_page(0, 0), PageStatus::Empty);
    assert_eq!(classify_post_page(-1, 3), PageStatus::Rejected);
    assert_eq!(classify_post_page(8, 0), PageStatus::Rejected);
}

#[test]
fn short_sec_uid_last_six_bytes() {
    assert_eq!(short_sec_uid("MS4wLjABAAAA5fOskZ"), "A5fOskZ"[1..].to_string());
    assert_eq!(short_sec_uid("abcdef"), "abcdef");
    assert_eq!(short_sec_uid("\u{4e2d}abcdef"), "abcdef");
}

#[test]
fn author_dir_name_format() {
    assert_eq!(author_dir_name("123", "nick", "fOskZ6"), "123@nick[fOskZ6]");
    assert_eq!(author_dir_name("", "", ""), "@[]");
}

#[test]
fn aweme_step_cases() {
    let step = aweme_step(false, 1700000000, 0);
    assert!(step.record_create_time);
    assert_eq!(step.action, AwemeAction::Stop);
    let step = aweme_step(false, 1700000000, 1);
    assert!(step.record_create_time);
    assert_eq!(step.action, AwemeAction::Skip);
    let step = aweme_step(true, 1700000000, 0);
    assert!(!step.record_create_time);
    assert_eq!(step.action, AwemeAction::Process);
    let step = aweme_step(true, 0, 1);
    assert_eq!(step.action, AwemeAction::Skip);
    let step = aweme_step(true, -5, 0);
    assert_eq!(step.action, AwemeAction::Stop);
}

#[test]
fn post_list_params_at_fixed_times() {
    let query = post_list_query("MS4wLjABAAAA", 5);
    let first = generate_xb_at(&query, 1700000000);
    let second = generate_xb_at(&first, 1700000001);
    let params = post_list_params_at("MS4wLjABAAAA", 5, 1700000000, 1700000001);
    assert_eq!(params, format!("{first}&X-Bogus={second}"));
    assert_eq!(params.len(), 65);
}
