use f1clash_setup::analytics::{default_days, default_limit, extract_referrer_host, first_forwarded, should_skip, Device};

#[test]
fn device_bots_come_first() {
    assert_eq!(Device::from_user_agent(Some("Googlebot/2.1")), Device::Bot);
    assert_eq!(Device::from_user_agent(Some("curl/8.0")), Device::Bot);
    assert_eq!(Device::from_user_agent(Some("Wget/1.21")), Device::Bot);
    assert_eq!(Device::from_user_agent(Some("Mozilla/5.0 (Android) Spider")), Device::Bot);
}

#[test]
fn device_mobile_and_desktop() {
    assert_eq!(
        Device::from_user_agent(Some("Mozilla/5.0 (iPhone; CPU iPhone OS 17_0 like Mac OS X)")),
        Device::Mobile
    );
    assert_eq!(Device::from_user_agent(Some("Mozilla/5.0 (Linux; Android 14)")), Device::Mobile);
    assert_eq!(Device::from_user_agent(Some("Mozilla/5.0 (X11; Linux x86_64)")), Device::Desktop);
}

#[test]
fn device_other_without_user_agent() {
    assert_eq!(Device::from_user_agent(None), Device::Other);
    assert_eq!(Device::from_user_agent(Some("")), Device::Other);
    assert_eq!(Device::from_user_agent(Some("Opera/9.80")), Device::Other);
}

#[test]
fn device_names() {
    assert_eq!(Device::Mobile.as_str(), "mobile");
    assert_eq!(Device::Desktop.as_str(), "desktop");
    assert_eq!(Device::Bot.as_str(), "bot");
    assert_eq!(Device::Other.as_str(), "other");
}

#[test]
fn skipped_paths() {
    assert!(should_skip("/admin"));
    assert!(should_skip("/admin/analytics"));
    assert!(should_skip("/auth/login"));
    assert!(should_skip("/favicon.ico"));
    assert!(should_skip("/static/app.css"));
    assert!(!should_skip("/"));
    assert!(!should_skip("/optimizer"));
    assert!(!should_skip("/static"));
    assert!(!should_skip("/favicon.ico2"));
}

#[test]
fn referrer_keeps_only_the_host() {
    assert_eq!(
        extract_referrer_host(Some("https://www.google.com/search?q=f1+clash")),
        Some("www.google.com".to_string())
    );
    assert_eq!(extract_referrer_host(Some("http://reddit.com/r/F1Clash")), Some("reddit.com".to_string()));
}

#[test]
fn referrer_without_a_host_is_none() {
    assert_eq!(extract_referrer_host(None), None);
    assert_eq!(extract_referrer_host(Some("not a url")), None);
    assert_eq!(extract_referrer_host(Some("mailto:someone@example.com")), None);
}

#[test]
fn forwarded_takes_first_address_trimmed() {
    assert_eq!(first_forwarded("203.0.113.5, 10.0.0.1"), "203.0.113.5");
    assert_eq!(first_forwarded("  198.51.100.7  "), "198.51.100.7");
    assert_eq!(first_forwarded(" , 1.2.3.4"), "");
    assert_eq!(first_forwarded(""), "");
}

#[test]
fn dashboard_defaults() {
    assert_eq!(default_days(), 30);
    assert_eq!(default_limit(), 10);
}
