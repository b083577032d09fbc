use jcloud_watchdog::args::{is_valid_project_name, Args};
use jcloud_watchdog::info::InfoResponse;
use jcloud_watchdog::provision::{
    classify_line, is_interactive_prompt, list_command, mentions_prompt_word, start_instance,
    LineVerdict, OutputCollector,
};
use jcloud_watchdog::reconcile::{check_jcloud, finish_deploy, ReconcileError, Step};
use jcloud_watchdog::resolve::{normalize_url, resolve_endpoint, ResolveError};
use jcloud_watchdog::state::{State, NANOS_PER_SEC};
use jcloud_watchdog::urlgroup::JCloudURLGroup;
use jcloud_watchdog::scan::extract_candidates;
use jcloud_watchdog::urls::{
    find_project_url, get_current_url, get_urls, parse_candidates, url_project_name,
};

const LIST_OUTPUT: &str = "\
                          All Flows
+-------------------------+---------+----------------------------------------------+
| ID                      | Status  | URL                                          |
| 1a2b3c4d                | ALIVE   | \"https://other-1234.wolf.jina.ai\"          |
| 5e6f7a8b                | ALIVE   | \"https://myproj-efgh.wolf.jina.ai\"         |
+-------------------------+---------+----------------------------------------------+
";

fn args_with(flow: Option<&str>, alternate: Option<&str>) -> Args {
    Args {
        flow_yml_path: flow.map(|s| s.to_string()),
        project_name: "myproj".to_string(),
        alternate_url: alternate.map(|s| s.to_string()),
        port: 8080,
        host: "127.0.0.1".to_string(),
        check_delay: 10,
    }
}

#[test]
fn candidates_stop_at_quote_or_whitespace() {
    assert_eq!(extract_candidates(""), Vec::<String>::new());
    assert_eq!(extract_candidates("no urls here"), Vec::<String>::new());
    assert_eq!(
        extract_candidates("\"https://a-b.jina.ai\", \"https://c-d.jina.ai\"\n\"http://e-f.jina.ai\""),
        vec!["https://a-b.jina.ai", "https://c-d.jina.ai", "http://e-f.jina.ai"]
    );
    assert_eq!(
        extract_candidates("\"https://z-w.jina.ai/path\" tail"),
        vec!["https://z-w.jina.ai/path"]
    );
    assert_eq!(extract_candidates("x \"https://q-r.wolf.jina.ai/ y"), vec!["https://q-r.wolf.jina.ai/"]);
    assert_eq!(
        extract_candidates("\"HTTPS://x-y.jina.ai\" \"://x-y.jina.ai\" \"h1://x.jina.ai\""),
        Vec::<String>::new()
    );
}

#[test]
fn host_must_end_in_cloud_domain() {
    assert_eq!(extract_candidates("\"https://evil.com/?q=jina.ai\""), Vec::<String>::new());
    assert_eq!(extract_candidates("\"https://example.com\""), Vec::<String>::new());
    assert_eq!(extract_candidates("\"https://x.jina.ai.evil.com\""), Vec::<String>::new());
    assert_eq!(extract_candidates("\"https://notjina.ai\""), Vec::<String>::new());
    assert_eq!(
        extract_candidates("\"https://p-1.wolf.jina.ai:443/x\""),
        vec!["https://p-1.wolf.jina.ai:443/x"]
    );
}

#[test]
fn two_urls_on_one_line_are_separate() {
    let text = "\"https://a-1.wolf.jina.ai\" \"https://b-2.wolf.jina.ai\"\n\"https://a-1.wolf.jina.ai\"\n";
    assert_eq!(
        get_urls(text),
        vec![
            "https://a-1.wolf.jina.ai/".to_string(),
            "https://b-2.wolf.jina.ai/".to_string(),
            "https://a-1.wolf.jina.ai/".to_string(),
        ]
    );
}

#[test]
fn project_name_may_hold_digits() {
    let out = "\"https://proj2-ab.wolf.jina.ai\"";
    assert_eq!(get_current_url(out, "proj2"), Some("https://proj2-ab.wolf.jina.ai/".to_string()));
    assert_eq!(get_current_url(out, "proj"), None);
}

#[test]
fn extraction_keeps_every_url_in_order() {
    let urls = get_urls(LIST_OUTPUT);
    assert_eq!(
        urls,
        vec![
            "https://other-1234.wolf.jina.ai/".to_string(),
            "https://myproj-efgh.wolf.jina.ai/".to_string(),
        ]
    );
    let repeated = "\"https://a-1.jina.ai\"\n\"https://a-1.jina.ai\"\n";
    assert_eq!(get_urls(repeated).len(), 2);
}

#[test]
fn malformed_candidate_is_skipped() {
    let text = "\"https://first-1.jina.ai\" \"https://bad<host-2.jina.ai\" \"https://last-3.jina.ai\"\n";
    assert_eq!(extract_candidates(text).len(), 3);
    assert_eq!(
        get_urls(text),
        vec!["https://first-1.jina.ai/".to_string(), "https://last-3.jina.ai/".to_string()]
    );
}

#[test]
fn parsing_serializes_candidates() {
    let cs = vec!["https://Upper-1.JINA.ai".to_string(), "not a url".to_string()];
    assert_eq!(parse_candidates(&cs), vec!["https://upper-1.jina.ai/".to_string()]);
}

#[test]
fn project_name_is_text_before_first_hyphen() {
    assert_eq!(url_project_name("https://abc-xyz.wolf.jina.ai/"), Some("abc".to_string()));
    assert_eq!(url_project_name("https://abc.wolf.jina.ai/"), None);
    assert_eq!(url_project_name("https://Abc-xyz.wolf.jina.ai/"), Some("Abc".to_string()));
    assert_eq!(url_project_name("https://abc.wolf.jina.ai/x-y"), None);
    assert_eq!(url_project_name("no separator-here"), None);
    assert_eq!(url_project_name("https://abc-d-e.wolf.jina.ai/"), Some("abc".to_string()));
}

#[test]
fn project_name_matching_is_exact() {
    let urls = vec!["https://abc-xyz.wolf.jina.ai/".to_string()];
    assert_eq!(find_project_url(&urls, "abc"), Some("https://abc-xyz.wolf.jina.ai/".to_string()));
    assert_eq!(find_project_url(&urls, "ab"), None);
    assert_eq!(find_project_url(&urls, "abc-xyz"), None);
    assert_eq!(find_project_url(&urls, "ABC"), None);
    assert_eq!(find_project_url(&urls, "xyz"), None);
}

#[test]
fn first_matching_url_wins() {
    let text = "\"https://p-1.jina.ai\"\n\"https://q-2.jina.ai\"\n\"https://p-3.jina.ai\"\n";
    assert_eq!(get_current_url(text, "p"), Some("https://p-1.jina.ai/".to_string()));
    assert_eq!(get_current_url(text, "q"), Some("https://q-2.jina.ai/".to_string()));
    assert_eq!(get_current_url(text, "r"), None);
}

#[test]
fn live_instance_resolves_without_deploy() {
    let step = check_jcloud("myproj", &Some("flow.yml".to_string()), &Some(LIST_OUTPUT.to_string()));
    match step {
        Step::Resolved(u) => assert_eq!(u, "https://myproj-efgh.wolf.jina.ai/"),
        other => panic!("unexpected step {:?}", other),
    }
    let quoted = "\"https://myproj-efgh.wolf.jina.ai\"".to_string();
    let step = check_jcloud("myproj", &None, &Some(quoted));
    assert!(matches!(step, Step::Resolved(_)));
}

#[test]
fn missing_instance_is_deployed() {
    let step = check_jcloud("myproj", &Some("flow.yml".to_string()), &Some("nothing".to_string()));
    match step {
        Step::Deploy(a) => assert_eq!(a, vec!["deploy".to_string(), "flow.yml".to_string()]),
        other => panic!("unexpected step {:?}", other),
    }
}

#[test]
fn reconcile_errors() {
    let step = check_jcloud("myproj", &None, &Some("nothing".to_string()));
    assert!(matches!(step, Step::Failed(ReconcileError::NoRunningOrDeployableInstance)));
    let step = check_jcloud("myproj", &Some("flow.yml".to_string()), &None);
    assert!(matches!(step, Step::Failed(ReconcileError::SubprocessSpawnFailure)));
    assert_eq!(finish_deploy("myproj", &None), Err(ReconcileError::SubprocessSpawnFailure));
    assert_eq!(
        finish_deploy("myproj", &Some("deployed \"https://other-1.jina.ai\"".to_string())),
        Err(ReconcileError::NoUrlInDeployOutput)
    );
}

#[test]
fn failed_pass_keeps_cached_endpoint() {
    let mut state = State::new("myproj".to_string());
    state.finish_pass(Ok("https://myproj-abcd.wolf.jina.ai/".to_string()), 5);
    state.finish_pass(Err(ReconcileError::NoUrlInDeployOutput), 7);
    assert_eq!(state.my_url, Some("https://myproj-abcd.wolf.jina.ai/".to_string()));
    assert_eq!(state.last_checked, Some(7));
    state.finish_pass(Err(ReconcileError::SubprocessSpawnFailure), 9);
    assert_eq!(state.my_url, Some("https://myproj-abcd.wolf.jina.ai/".to_string()));
}

#[test]
fn poll_delay_gates_passes() {
    let args = args_with(Some("flow.yml"), None);
    let mut state = State::new("myproj".to_string());
    assert!(state.should_check(&args, 0));
    state.finish_pass(Err(ReconcileError::NoUrlInDeployOutput), 1000);
    assert!(!state.should_check(&args, 1000));
    assert!(!state.should_check(&args, 1000 + 10 * NANOS_PER_SEC));
    assert!(state.should_check(&args, 1001 + 10 * NANOS_PER_SEC));
    assert!(!state.should_check(&args, 10));
    let no_flow = args_with(None, Some("https://fallback.example/"));
    let fresh = State::new("myproj".to_string());
    assert!(!fresh.should_check(&no_flow, 0));
}

#[test]
fn normalization_strips_one_slash() {
    assert_eq!(normalize_url("https://x.jina.ai/"), "https://x.jina.ai");
    assert_eq!(normalize_url("https://x.jina.ai"), "https://x.jina.ai");
    assert_eq!(normalize_url("https://x.jina.ai//"), "https://x.jina.ai/");
    assert_eq!(normalize_url(""), "");
    assert_eq!(normalize_url("/"), "");
}

#[test]
fn fallback_without_descriptor() {
    let args = args_with(None, Some("https://fallback.example/"));
    let state = State::new("myproj".to_string());
    for now in [0u64, 1, 20 * NANOS_PER_SEC] {
        assert!(!state.should_check(&args, now));
        let r = resolve_endpoint(&state, &args).unwrap();
        assert_eq!(r.endpoint, "https://fallback.example");
    }
}

#[test]
fn deploy_output_gives_endpoint() {
    let args = args_with(Some("flow.yml"), None);
    let mut state = State::new("myproj".to_string());
    assert!(state.should_check(&args, 0));
    let step = check_jcloud(&state.project_name, &args.flow_yml_path, &Some("no match".to_string()));
    assert!(matches!(step, Step::Deploy(_)));
    let out = "Flow is available at \"https://myproj-abcd.wolf.jina.ai/\"\n".to_string();
    let result = finish_deploy(&state.project_name, &Some(out));
    state.finish_pass(result, 3);
    let r = resolve_endpoint(&state, &args).unwrap();
    assert_eq!(r.endpoint, "https://myproj-abcd.wolf.jina.ai");
}

#[test]
fn cached_endpoint_beats_alternate() {
    let args = args_with(Some("flow.yml"), Some("https://fallback.example/"));
    let mut state = State::new("myproj".to_string());
    state.finish_pass(Ok("https://myproj-efgh.wolf.jina.ai/".to_string()), 1);
    assert_eq!(resolve_endpoint(&state, &args).unwrap().endpoint, "https://myproj-efgh.wolf.jina.ai");
}

#[test]
fn no_endpoint_at_all() {
    let args = args_with(Some("flow.yml"), None);
    let state = State::new("myproj".to_string());
    assert_eq!(resolve_endpoint(&state, &args).unwrap_err(), ResolveError::NoEndpoint);
}

#[test]
fn prompt_lines_stop_the_reader() {
    assert!(is_interactive_prompt("Would you like to take our SURVEY? [y/n]"));
    assert!(is_interactive_prompt("survey"));
    assert!(!is_interactive_prompt("surv ey"));
    assert!(mentions_prompt_word("a survey"));
    assert!(!mentions_prompt_word("a SURVEY"));
    assert_eq!(classify_line(""), LineVerdict::EndOfOutput);
    assert_eq!(classify_line("Take the Survey\n"), LineVerdict::Interrupt);
    assert_eq!(classify_line("| ok |\n"), LineVerdict::Keep);
}

#[test]
fn collector_gathers_lines_until_prompt() {
    let mut c = OutputCollector::new();
    assert_eq!(c.feed("line one\n"), LineVerdict::Keep);
    assert_eq!(c.feed("line two\n"), LineVerdict::Keep);
    assert_eq!(c.feed("Please answer this Survey\n"), LineVerdict::Interrupt);
    assert_eq!(c.lines, "line one\nline two\n");
    assert_eq!(c.feed(""), LineVerdict::EndOfOutput);
    assert_eq!(c.lines, "line one\nline two\n");
}

#[test]
fn tool_arguments() {
    assert_eq!(list_command(), vec!["list".to_string()]);
    assert_eq!(start_instance("a/flow.yml"), vec!["deploy".to_string(), "a/flow.yml".to_string()]);
}

#[test]
fn project_name_validation() {
    assert!(is_valid_project_name("myproj1"));
    assert!(is_valid_project_name("projé"));
    assert!(!is_valid_project_name("my-proj"));
    assert!(!is_valid_project_name("my proj"));
    assert!(is_valid_project_name(""));
}

#[test]
fn info_reports_version() {
    assert_eq!(InfoResponse::new().version, "0.2.0");
}

#[test]
fn url_group_starts_empty() {
    let g = JCloudURLGroup::new(args_with(None, None));
    assert!(g.my_url.is_none());
    assert_eq!(g.args.project_name, "myproj");
}

#[test]
fn lines_are_scanned_on_their_own() {
    let first = "| x | \"https://abc-1.jina.ai\" | \"https://broken";
    let second = "\"https://def-2.wolf.jina.ai\" and \"https://ghi-3.jina.ai\"";
    let joined = format!("{}\n{}", first, second);
    let mut expected = extract_candidates(first);
    expected.extend(extract_candidates(second));
    assert_eq!(extract_candidates(&joined), expected);
    let mut urls = get_urls(first);
    urls.extend(get_urls(second));
    assert_eq!(get_urls(&joined), urls);
    assert_eq!(get_urls(first), vec!["https://abc-1.jina.ai/".to_string()]);
}

#[test]
fn candidates_have_cloud_url_shape() {
    let text = "\"\"HTTP://a.jina.ai\" \"x://y\n\"s3://bucket-1.jina.ai.jina.ai\" \"ws://q-1.jina.ai\"";
    let cs = extract_candidates(text);
    assert_eq!(cs, vec!["ws://q-1.jina.ai".to_string()]);
    for c in cs {
        let sep = c.find("://").unwrap();
        assert!(sep > 0);
        assert!(c[..sep].chars().all(|ch| ch.is_ascii_lowercase()));
        assert!(c.ends_with("jina.ai"));
        assert!(!c.contains('\n'));
    }
}
