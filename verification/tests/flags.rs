use process_wrapper_worker::flags::{extract_request_flags, Phase, RequestFlags};

fn list(args: &[&str]) -> Vec<String> {
    args.iter().map(|a| a.to_string()).collect()
}

fn extract(args: &[&str]) -> (RequestFlags, Vec<String>) {
    let mut left = list(args);
    let flags = extract_request_flags(&mut left);
    (flags, left)
}

#[test]
fn default_phase_is_link() {
    assert_eq!(Phase::default(), Phase::Link);
    let flags = RequestFlags::default();
    assert_eq!(flags.phase, Phase::Link);
    assert_eq!(flags.output_file, None);
    assert!(flags.env_files.is_empty());
}

#[test]
fn empty_list_has_no_flags() {
    let (flags, left) = extract(&[]);
    assert_eq!(flags.phase, Phase::Link);
    assert!(left.is_empty());
}

#[test]
fn only_the_value_true_asks_for_metadata() {
    for value in ["false", "True", "", "1"] {
        let (flags, left) = extract(&["--rustc-quit-on-rmeta", value, "a"]);
        assert_eq!(flags.phase, Phase::Link);
        assert_eq!(left, list(&["a"]));
        let joined = format!("--rustc-quit-on-rmeta={}", value);
        let (flags, left) = extract(&[joined.as_str(), "a"]);
        assert_eq!(flags.phase, Phase::Link);
        assert_eq!(left, list(&["a"]));
    }
}

#[test]
fn metadata_is_not_taken_back() {
    let (flags, _) = extract(&["--rustc-quit-on-rmeta=true", "--rustc-quit-on-rmeta", "false"]);
    assert_eq!(flags.phase, Phase::Metadata);
}

#[test]
fn last_output_file_counts_and_all_env_files_do() {
    let (flags, left) = extract(&[
        "--output-file=a",
        "--env-file",
        "e1",
        "x",
        "--output-file",
        "b",
        "--env-file=e2",
        "--env-file=",
    ]);
    assert_eq!(flags.output_file.as_deref(), Some("b"));
    assert_eq!(flags.env_files, list(&["e1", "e2", ""]));
    assert_eq!(left, list(&["x"]));
}

#[test]
fn flag_without_value_at_the_end_is_dropped() {
    for flag in ["--rustc-quit-on-rmeta", "--output-file", "--env-file"] {
        let (flags, left) = extract(&["x", flag]);
        assert_eq!(flags.phase, Phase::Link);
        assert_eq!(flags.output_file, None);
        assert!(flags.env_files.is_empty());
        assert_eq!(left, list(&["x"]));
    }
}

#[test]
fn value_may_look_like_a_flag() {
    let (flags, left) = extract(&["--output-file", "--env-file", "y"]);
    assert_eq!(flags.output_file.as_deref(), Some("--env-file"));
    assert!(flags.env_files.is_empty());
    assert_eq!(left, list(&["y"]));
}

#[test]
fn similar_arguments_are_kept() {
    let plain = ["--output-files", "-output-file=x", "--env-file2=x", "--rustc-quit-on-rmetatrue"];
    let (flags, left) = extract(&plain);
    assert_eq!(flags.phase, Phase::Link);
    assert_eq!(flags.output_file, None);
    assert_eq!(left, list(&plain));
}

#[test]
fn stripping_twice_is_stripping_once() {
    let (_, mut left) = extract(&["a", "--env-file=e", "b", "--output-file", "o", "c"]);
    let once = left.clone();
    let flags = extract_request_flags(&mut left);
    assert_eq!(left, once);
    assert_eq!(flags.phase, Phase::Link);
    assert_eq!(flags.output_file, None);
    assert!(flags.env_files.is_empty());
}

#[test]
fn phase_marker_leaves_no_trace() {
    let (plain, left) = extract(&["a", "--output-file=o", "b"]);
    assert_eq!(plain.phase, Phase::Link);
    let (one, left_one) = extract(&["a", "--rustc-quit-on-rmeta=true", "--output-file=o", "b"]);
    let (two, left_two) = extract(&["a", "--output-file=o", "--rustc-quit-on-rmeta", "true", "b"]);
    assert_eq!(one.phase, Phase::Metadata);
    assert_eq!(two.phase, Phase::Metadata);
    assert_eq!(left_one, left);
    assert_eq!(left_two, left);
    assert_eq!(one.output_file, plain.output_file);
    assert_eq!(two.output_file, plain.output_file);
}

#[test]
fn lists_are_scanned_apart() {
    let first = ["a", "--env-file", "e1", "--output-file=o1"];
    let later = ["--rustc-quit-on-rmeta=true", "--env-file=e2", "b"];
    let (flags1, left1) = extract(&first);
    let (flags2, left2) = extract(&later);
    let (both, left) = extract(&[&first[..], &later[..]].concat());
    assert_eq!(left, [left1, left2].concat());
    assert_eq!(both.env_files, [flags1.env_files, flags2.env_files].concat());
    assert_eq!(both.output_file, flags1.output_file);
    assert_eq!(both.phase, flags2.phase);
}
