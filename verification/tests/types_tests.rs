use gitstreaks::{Settings, UserInfo};

#[test]
fn test_settings_default() {
    let s = Settings::default();
    assert_eq!(s.username, "");
    assert_eq!(s.update_interval, 3600);
    assert_eq!(s.icon_style, "green");
    assert!(!s.launch_at_login);
    assert_eq!(s.theme, "system");
}

#[test]
fn test_user_info_holds_plain_values() {
    let u = UserInfo {
        username: "octocat".to_string(),
        avatar_url: "https://github.com/octocat.png?size=80".to_string(),
    };
    assert_eq!(u.username, "octocat");
    assert!(u.avatar_url.contains("octocat"));
}
