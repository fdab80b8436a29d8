use zenith::shell::{login_name, shell_environment};

#[test]
fn login_name_is_dash_and_file_name() {
    assert_eq!(login_name("/bin/zsh"), "-zsh");
    assert_eq!(login_name("/usr/local/bin/fish"), "-fish");
    assert_eq!(login_name("bash"), "-bash");
    assert_eq!(login_name("/odd/"), "-");
}

#[test]
fn shell_environment_replaces_term_and_integration() {
    let vars = vec![
        ("HOME".to_string(), "/home/u".to_string()),
        ("TERM".to_string(), "dumb".to_string()),
        ("ZENITH_SHELL_INTEGRATION".to_string(), "0".to_string()),
        ("BAD".to_string(), "a\0b".to_string()),
        ("LANG".to_string(), "C".to_string()),
    ];
    assert_eq!(
        shell_environment(&vars),
        vec![
            "HOME=/home/u".to_string(),
            "LANG=C".to_string(),
            "TERM=xterm-256color".to_string(),
            "ZENITH_SHELL_INTEGRATION=1".to_string(),
        ]
    );
    assert_eq!(shell_environment(&Vec::new()).len(), 2);
}
