use klogz::config::{choose_log_dir, editor, log_dir, ConfigError};

#[test]
fn klogz_dir_wins() {
    let r = log_dir(Some("/data/klogz".to_string()), Some("/data/logcap".to_string()));
    assert_eq!(r, Ok(b"/data/klogz".to_vec()));
}

#[test]
fn logcap_dir_second() {
    let r = log_dir(None, Some("/data/logcap".to_string()));
    assert_eq!(r, Ok(b"/data/logcap".to_vec()));
}

#[test]
fn empty_variable_still_counts() {
    assert_eq!(log_dir(Some(String::new()), Some("/x".to_string())), Ok(Vec::new()));
}

#[test]
fn home_fallback() {
    let r = log_dir(None, None);
    match dirs::home_dir() {
        Some(h) => assert_eq!(r, Ok(h.join("logs").into_os_string().into_encoded_bytes())),
        None => assert_eq!(r, Err(ConfigError::NoHomeDir)),
    }
}

#[test]
fn choose_log_dir_rules() {
    assert_eq!(choose_log_dir(None, None, Some(b"/home/me".to_vec())), Ok(b"/home/me/logs".to_vec()));
    assert_eq!(choose_log_dir(None, None, Some(b"/home/me/".to_vec())), Ok(b"/home/me/logs".to_vec()));
    assert_eq!(choose_log_dir(None, None, None), Err(ConfigError::NoHomeDir));
    assert_eq!(
        choose_log_dir(Some("é".to_string()), None, None),
        Ok("é".as_bytes().to_vec())
    );
    assert_eq!(
        choose_log_dir(None, Some("/b".to_string()), Some(b"/home/me".to_vec())),
        Ok(b"/b".to_vec())
    );
}

#[test]
fn editor_precedence() {
    assert_eq!(editor(Some("vim".to_string()), Some("code".to_string())), "vim");
    assert_eq!(editor(None, Some("code".to_string())), "code");
    assert_eq!(editor(None, None), "nvim");
    assert_eq!(editor(Some(String::new()), Some("code".to_string())), "");
}
