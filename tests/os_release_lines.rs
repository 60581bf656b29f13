use sys_info::{parse_line_for_linux_os_release, parse_linux_os_release};

#[test]
fn quoted_value_loses_its_quotes() {
    assert_eq!(
        parse_line_for_linux_os_release("ID=\"ubuntu\"".to_string()),
        Some(("ID".to_string(), "ubuntu".to_string()))
    );
}

#[test]
fn bare_value_is_kept() {
    assert_eq!(
        parse_line_for_linux_os_release("VERSION_ID=22.04".to_string()),
        Some(("VERSION_ID".to_string(), "22.04".to_string()))
    );
}

#[test]
fn line_without_equals_gives_nothing() {
    assert_eq!(parse_line_for_linux_os_release("# a comment".to_string()), None);
    assert_eq!(parse_line_for_linux_os_release(String::new()), None);
}

#[test]
fn split_is_at_first_equals() {
    assert_eq!(
        parse_line_for_linux_os_release("A=b=c".to_string()),
        Some(("A".to_string(), "b=c".to_string()))
    );
}

#[test]
fn lone_quote_becomes_empty() {
    assert_eq!(
        parse_line_for_linux_os_release("NAME=\"".to_string()),
        Some(("NAME".to_string(), String::new()))
    );
}

#[test]
fn release_file_sets_known_keys() {
    let text = "NAME=\"Ubuntu\"\nVERSION=\"22.04.3 LTS (Jammy Jellyfish)\"\nID=ubuntu\n\
ID_LIKE=debian\nPRETTY_NAME=\"Ubuntu 22.04.3 LTS\"\nVERSION_ID=\"22.04\"\n\
HOME_URL=\"https://www.ubuntu.com/\"\nno equals sign here\nUNKNOWN_KEY=x\n  LOGO=ubuntu-logo  \n";
    let info = parse_linux_os_release(text);
    assert_eq!(info.id.as_deref(), Some("ubuntu"));
    assert_eq!(info.id_like.as_deref(), Some("debian"));
    assert_eq!(info.name.as_deref(), Some("Ubuntu"));
    assert_eq!(info.pretty_name.as_deref(), Some("Ubuntu 22.04.3 LTS"));
    assert_eq!(info.version.as_deref(), Some("22.04.3 LTS (Jammy Jellyfish)"));
    assert_eq!(info.version_id.as_deref(), Some("22.04"));
    assert_eq!(info.home_url.as_deref(), Some("https://www.ubuntu.com/"));
    assert_eq!(info.logo.as_deref(), Some("ubuntu-logo"));
    assert_eq!(info.version_codename, None);
    assert_eq!(info.variant, None);
    assert_eq!(info.bug_report_url, None);
}

#[test]
fn later_line_overrides_earlier() {
    let info = parse_linux_os_release("ID=first\nID=\"second\"\n");
    assert_eq!(info.id.as_deref(), Some("second"));
}

#[test]
fn empty_release_file_sets_nothing() {
    let info = parse_linux_os_release("");
    assert_eq!(info.id, None);
    assert_eq!(info.name, None);
}
