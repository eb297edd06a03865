use klogz::commands::klf::{
    find_context, follow_command, match_context, picked, pod_label, pod_picker_args, pod_selection, start, step, Args,
    KlfAction, KlfError, KlfEvent, KlfState,
};

fn args(ctx: Option<&str>, ns: &str, ask: bool, tail: u32) -> Args {
    Args {
        context_keyword: ctx.map(|s| s.to_string()),
        namespace: ns.to_string(),
        prompt_namespace: ask,
        tail_lines: tail,
    }
}

#[test]
fn context_match_is_case_insensitive_and_first() {
    let listing = "docker-desktop\nPROD-poc-east\r\nstaging-poc\n";
    assert_eq!(find_context(listing, "poc"), Some("PROD-poc-east".to_string()));
    assert_eq!(find_context(listing, "POC-EAST"), Some("PROD-poc-east".to_string()));
    assert_eq!(find_context(listing, "STAGING"), Some("staging-poc".to_string()));
    assert_eq!(find_context(listing, "nope"), None);
    assert_eq!(find_context("", "x"), None);
    assert_eq!(find_context("a\n\nb", ""), Some("a".to_string()));
}

#[test]
fn picked_trims_and_rejects_blank() {
    assert_eq!(picked("  siem \n"), Some("siem".to_string()));
    assert_eq!(picked("\n"), None);
    assert_eq!(picked(""), None);
}

#[test]
fn pod_selection_reads_first_field() {
    let sel = pod_selection("api-server-7d9f-x2   1/1   Running   0   3d\n").unwrap();
    assert_eq!(sel.pod, "api-server-7d9f-x2");
    assert_eq!(sel.row, "api-server-7d9f-x2   1/1   Running   0   3d");
    assert!(pod_selection("   \n").is_none());
}

#[test]
fn pod_label_first_two_segments() {
    assert_eq!(pod_label("api-server-7d9f-x2"), "api-server");
    assert_eq!(pod_label("worker"), "worker");
    assert_eq!(pod_label("a-b"), "a-b");
    assert_eq!(pod_label("-lead"), "-lead");
    assert_eq!(pod_label("a--b"), "a-");
    for p in ["api-server-7d9f-x2", "worker", "a-b", "-lead", "a--b", "", "-", "--"] {
        let want = p.split('-').take(2).collect::<Vec<_>>().join("-");
        assert_eq!(pod_label(p), want, "{p:?}");
    }
}

#[test]
fn follow_command_shape() {
    assert_eq!(follow_command("api-1", "siem"), vec!["kubectl", "logs", "-f", "api-1", "-n", "siem"]);
}

#[test]
fn pod_picker_arguments() {
    assert_eq!(
        pod_picker_args("siem", 100),
        vec![
            "--tac",
            "--header-lines=1",
            "--height",
            "80%",
            "--prompt",
            "Select Pod (siem) > ",
            "--layout=reverse",
            "--preview",
            "kubectl logs --tail=100 -n siem {1} 2>&1",
            "--preview-window=right:60%:wrap",
            "--bind",
            "ctrl-u:preview-half-page-up,ctrl-d:preview-half-page-down",
            "--bind",
            "ctrl-l:execute(kubectl logs -n siem {1} | less)",
        ]
    );
    let a = pod_picker_args("app", 0);
    assert_eq!(a[8], "kubectl logs --tail=0 -n app {1} 2>&1");
    let b = pod_picker_args("app", 4294967295);
    assert_eq!(b[8], "kubectl logs --tail=4294967295 -n app {1} 2>&1");
    assert_eq!(b[13], "ctrl-l:execute(kubectl logs -n app {1} | less)");
}

#[test]
fn start_without_context_opens_pod_picker() {
    let (st, act) = start(args(None, "siem", false, 100));
    assert!(matches!(st, KlfState::PickingPod { ref namespace, tail_lines: 100 } if namespace == "siem"));
    match act {
        KlfAction::PickPod { namespace, fzf_args } => {
            assert_eq!(namespace, "siem");
            assert_eq!(fzf_args[5], "Select Pod (siem) > ");
        }
        _ => panic!("expected the pod picker"),
    }
}

#[test]
fn start_with_prompt_picks_namespace() {
    let (st, act) = start(args(None, "siem", true, 200));
    assert!(matches!(st, KlfState::PickingNamespace { tail_lines: 200 }));
    assert!(matches!(act, KlfAction::PickNamespace));
}

#[test]
fn full_run_with_context_switch() {
    let (st, act) = start(args(Some("poc"), "siem", false, 100));
    assert!(matches!(act, KlfAction::ListContexts));
    let (st, act) = step(
        st,
        KlfEvent::ContextsListed { success: true, stdout: "dev\nPOC-1\n".to_string(), stderr: String::new() },
    );
    match &act {
        KlfAction::UseContext { context } => assert_eq!(context, "POC-1"),
        _ => panic!("expected a context switch"),
    }
    let (st, act) = step(st, KlfEvent::ContextUsed { success: true });
    assert!(matches!(act, KlfAction::PickPod { .. }));
    let (st, act) = step(st, KlfEvent::PodPicked { output: "api-server-7d9f  1/1  Running\n".to_string() });
    assert!(matches!(st, KlfState::Done));
    match act {
        KlfAction::Follow { row, pod, label, command } => {
            assert_eq!(row, "api-server-7d9f  1/1  Running");
            assert_eq!(pod, "api-server-7d9f");
            assert_eq!(label, "api-server");
            assert_eq!(command, vec!["kubectl", "logs", "-f", "api-server-7d9f", "-n", "siem"]);
        }
        _ => panic!("expected to follow the pod"),
    }
}

#[test]
fn picked_namespace_is_used() {
    let (st, _) = start(args(None, "siem", true, 50));
    let (st, act) = step(st, KlfEvent::NamespacePicked { output: "kube-system\n".to_string() });
    match act {
        KlfAction::PickPod { namespace, fzf_args } => {
            assert_eq!(namespace, "kube-system");
            assert_eq!(fzf_args[8], "kubectl logs --tail=50 -n kube-system {1} 2>&1");
        }
        _ => panic!("expected the pod picker"),
    }
    let (_, act) = step(st, KlfEvent::PodPicked { output: "coredns-abc 1/1\n".to_string() });
    match act {
        KlfAction::Follow { command, .. } => assert_eq!(command[5], "kube-system"),
        _ => panic!("expected to follow"),
    }
}

#[test]
fn cancelled_pickers_finish_with_zero() {
    let (st, _) = start(args(None, "siem", true, 100));
    let (st, act) = step(st, KlfEvent::NamespacePicked { output: "\n".to_string() });
    assert!(matches!(st, KlfState::Done));
    assert!(matches!(act, KlfAction::Finish { code: 0 }));
    let (st, _) = start(args(None, "siem", false, 100));
    let (_, act) = step(st, KlfEvent::PodPicked { output: String::new() });
    assert!(matches!(act, KlfAction::Finish { code: 0 }));
}

#[test]
fn context_errors() {
    let (st, _) = start(args(Some("poc"), "siem", false, 100));
    let (_, act) = step(
        st,
        KlfEvent::ContextsListed { success: false, stdout: String::new(), stderr: "boom".to_string() },
    );
    assert!(matches!(act, KlfAction::Fail { error: KlfError::ListContextsFailed { ref stderr } } if stderr == "boom"));

    let (st, _) = start(args(Some("poc"), "siem", false, 100));
    let (_, act) = step(
        st,
        KlfEvent::ContextsListed { success: true, stdout: "dev\nprod\n".to_string(), stderr: String::new() },
    );
    assert!(matches!(act, KlfAction::Fail { error: KlfError::ContextNotFound { ref keyword } } if keyword == "poc"));

    let (st, _) = start(args(Some("dev"), "siem", false, 100));
    let (st, _) = step(
        st,
        KlfEvent::ContextsListed { success: true, stdout: "dev\n".to_string(), stderr: String::new() },
    );
    let (_, act) = step(st, KlfEvent::ContextUsed { success: false });
    assert!(matches!(act, KlfAction::Fail { error: KlfError::UseContextFailed }));
}

#[test]
fn match_context_reads_the_given_lowercase_forms() {
    let lines = vec!["Alpha".to_string(), "BETA-poc".to_string(), "gamma-poc".to_string()];
    let lowered = vec!["alpha".to_string(), "beta-poc".to_string(), "gamma-poc".to_string()];
    assert_eq!(match_context(&lines, &lowered, "poc"), Some("BETA-poc".to_string()));
    assert_eq!(match_context(&lines, &lowered, "POC"), None);
    assert_eq!(match_context(&lines, &lowered, "alp"), Some("Alpha".to_string()));
    assert_eq!(match_context(&Vec::new(), &Vec::new(), ""), None);
}

#[test]
fn context_match_lowercases_unicode() {
    assert_eq!(find_context("ÜBER-cluster
", "über"), Some("ÜBER-cluster".to_string()));
    assert_eq!(find_context("ΣΙΣ
", "σις"), Some("ΣΙΣ".to_string()));
}
