use klogz::commands::cap::cap_label;
use klogz::commands::follow::{command_line, exit_code, follow_label, FollowError};
use klogz::commands::look::chosen_capture;
use klogz::sorting::stable_desc_order;

#[test]
fn cap_label_defaults_to_capture() {
    assert_eq!(cap_label(None), "capture");
    assert_eq!(cap_label(Some("auth crash".to_string())), "auth-crash");
    assert_eq!(cap_label(Some("???".to_string())), "capture");
}

#[test]
fn follow_needs_a_command() {
    assert_eq!(follow_label("x", &Vec::new()), Err(FollowError::NoCommand));
    assert_eq!(follow_label("auth service", &vec!["tail".to_string()]), Ok("auth-service".to_string()));
}

#[test]
fn exit_codes() {
    assert_eq!(exit_code(Some(3), false), 3);
    assert_eq!(exit_code(Some(0), true), 0);
    assert_eq!(exit_code(None, true), 0);
    assert_eq!(exit_code(None, false), 1);
    assert_eq!(exit_code(Some(-1), true), -1);
}

#[test]
fn command_lines() {
    let cmd: Vec<String> = ["kubectl", "logs", "-f", "pod"].iter().map(|s| s.to_string()).collect();
    assert_eq!(command_line(&cmd), "kubectl logs -f pod");
    assert_eq!(command_line(&Vec::new()), "");
    assert_eq!(command_line(&vec!["a b".to_string()]), "a b");
}

#[test]
fn chosen_capture_rules() {
    assert_eq!(chosen_capture(true, "/r/a.log\n"), Some("/r/a.log".to_string()));
    assert_eq!(chosen_capture(false, "/r/a.log\n"), None);
    assert_eq!(chosen_capture(true, "  \n"), None);
}

#[test]
fn stable_descending_order() {
    assert_eq!(stable_desc_order(&vec![3, 1, 3, 2, 1]), vec![0, 2, 3, 1, 4]);
    assert_eq!(stable_desc_order(&vec![]), Vec::<usize>::new());
    assert_eq!(stable_desc_order(&vec![-5, i128::MAX, i128::MIN]), vec![1, 0, 2]);
    let keys: Vec<i128> = vec![4, 4, 9, -2, 4, 9, 0];
    let mut idx: Vec<usize> = (0..keys.len()).collect();
    idx.sort_by(|a, b| keys[*b].cmp(&keys[*a]));
    assert_eq!(stable_desc_order(&keys), idx);
}
