use process_wrapper_worker::flags::Phase;
use process_wrapper_worker::inflight::{Settled, StateMap};
use process_wrapper_worker::protocol::WorkRequest;
use process_wrapper_worker::request::{
    finish_request, handle_request, plan_request, spawn_failure, start_failed, Entering, HandleStep,
    PlanStep, RequestPlan,
};

fn list(args: &[&str]) -> Vec<String> {
    args.iter().map(|a| a.to_string()).collect()
}

fn pair(p: &str, d: &str) -> (String, String) {
    (p.to_string(), d.to_string())
}

fn work_request(args: &[&str], cancel: bool) -> WorkRequest {
    WorkRequest {
        arguments: list(args),
        inputs: vec![],
        request_id: 1,
        cancel,
        verbosity: 0,
    }
}

fn entering(step: PlanStep) -> Entering {
    match step {
        PlanStep::Enter(e) => e,
        other => panic!("{:?}", other),
    }
}

fn load(step: PlanStep) -> RequestPlan {
    match step {
        PlanStep::LoadEnv(p) => p,
        other => panic!("{:?}", other),
    }
}

#[test]
fn cancelled_request_is_answered_at_once() {
    match handle_request(&work_request(&["a"], true), "/w") {
        HandleStep::Reply(reply) => {
            assert_eq!(reply.code, 0);
            assert_eq!(reply.output, "");
        }
        other => panic!("{:?}", other),
    }
}

#[test]
fn working_directory_is_substituted() {
    let req = work_request(&["${pwd}/a:${pwd}", "$pwd", "${pwd", "$${pwd}}", "${out}", ""], false);
    match handle_request(&req, "/w") {
        HandleStep::Prepare(args) => {
            assert_eq!(args, list(&["/w/a:/w", "$pwd", "${pwd", "$/w}", "${out}", ""]));
        }
        other => panic!("{:?}", other),
    }
    match handle_request(&work_request(&["${pwd}"], false), "${pwd}x") {
        HandleStep::Prepare(args) => assert_eq!(args, list(&["${pwd}x"])),
        other => panic!("{:?}", other),
    }
}

#[test]
fn phases_share_a_key() {
    let base = vec![];
    let meta = entering(plan_request(
        &[pair("src/lib.rs", "abc"), pair("m.params", "1")],
        list(&["--crate-name=foo", "--rustc-quit-on-rmeta=true", "--output-file", "m.json", "l.rs"]),
        &base,
    ));
    let link = entering(plan_request(
        &[pair("l.params", "2"), pair("src/lib.rs", "abc")],
        list(&["--crate-name=foo", "--output-file=l.json", "l.rs"]),
        &base,
    ));
    assert_eq!(meta.plan.key, link.plan.key);
    assert_eq!(meta.plan.rustc_args, list(&["--crate-name=foo", "l.rs"]));
    assert_eq!(meta.plan.rustc_args, link.plan.rustc_args);
    assert_eq!(meta.plan.flags.phase, Phase::Metadata);
    assert_eq!(link.plan.flags.phase, Phase::Link);
    let other = entering(plan_request(&[], list(&["--crate-name=bar"]), &base));
    assert_ne!(other.plan.key, link.plan.key);
}

#[test]
fn environment_without_env_files_is_that_of_the_start() {
    let base = vec![pair("A", "1"), pair("B", "2")];
    let e = entering(plan_request(&[], list(&["x"]), &base));
    assert_eq!(e.env, base);
}

#[test]
fn env_files_come_on_top() {
    let base = vec![pair("A", "1"), pair("B", "2")];
    let plan = load(plan_request(&[], list(&["--env-file=e", "x"]), &base));
    assert_eq!(plan.flags.env_files, list(&["e"]));
    let e = plan.env_loaded(&base, Ok(vec![pair("A", "3"), pair("C", "4")])).unwrap();
    assert_eq!(
        e.env,
        vec![pair("A", "1"), pair("B", "2"), pair("A", "3"), pair("C", "4")]
    );
    assert_eq!(e.plan.rustc_args, list(&["x"]));
}

#[test]
fn env_file_error_is_answered() {
    let plan = load(plan_request(&[], list(&["--env-file", "e"]), &vec![]));
    let reply = plan.env_loaded(&vec![], Err("no e".to_string())).unwrap_err();
    assert_eq!(reply.code, 1);
    assert_eq!(reply.output, "env-file error: no e");
}

#[test]
fn failed_start_is_answered() {
    let reply = spawn_failure("not found");
    assert_eq!(reply.code, 1);
    assert_eq!(reply.output, "failed to spawn rustc: not found");
}

#[test]
fn failed_start_is_forgotten_and_answered() {
    let mut state: StateMap<&str> = StateMap::new();
    assert!(state.enter(1, "other"));
    assert!(state.enter(2, "failing"));
    let reply = start_failed(&mut state, 2, "not found");
    assert_eq!(reply.code, 1);
    assert_eq!(reply.output, "failed to spawn rustc: not found");
    assert_eq!(state.lookup(2), None);
    assert_eq!(state.lookup(1), Some(&"other"));
    assert!(state.enter(2, "again"));
}

#[test]
fn verdict_is_answered() {
    let plan = |args: &[&str]| entering(plan_request(&[], list(args), &vec![])).plan;
    let settled = |result: Result<(), String>, stderr: &str, retire: bool| Settled {
        result,
        stderr: stderr.to_string(),
        retire,
    };
    let f = finish_request(plan(&["--output-file=o"]), settled(Ok(()), "w\n", false));
    assert_eq!((f.reply.code, f.reply.output.as_str()), (0, "w\n"));
    assert_eq!(f.sidecar, Some(pair("o", "w\n")));
    assert_eq!(f.retire, None);

    let p = plan(&["x"]);
    let key = p.key;
    let f = finish_request(p, settled(Err("e".to_string()), "", true));
    assert_eq!((f.reply.code, f.reply.output.as_str()), (1, "e"));
    assert_eq!(f.sidecar, None);
    assert_eq!(f.retire, Some(key));

    let f = finish_request(plan(&["--output-file", "o"]), settled(Err("e".to_string()), "w\n", true));
    assert_eq!((f.reply.code, f.reply.output.as_str()), (1, "w\n\ne"));
    assert_eq!(f.sidecar, Some(pair("o", "w\n")));
}
