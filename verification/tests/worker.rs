use process_wrapper_worker::flags::{extract_request_flags, Phase};
use process_wrapper_worker::framing::{read_json_value, ByteReader};
use process_wrapper_worker::key::compute_key;

#[test]
fn extract_request_flags_two_arg_form() {
    let mut args = vec![
        "lib.rs".to_string(),
        "--rustc-quit-on-rmeta".to_string(),
        "true".to_string(),
        "--output-file".to_string(),
        "/path/to/out.json".to_string(),
        "--env-file".to_string(),
        "/path/to/foo.env".to_string(),
        "--crate-name=foo".to_string(),
    ];
    let f = extract_request_flags(&mut args);
    assert_eq!(f.phase, Phase::Metadata);
    assert_eq!(f.output_file.as_deref(), Some("/path/to/out.json"));
    assert_eq!(f.env_files, vec!["/path/to/foo.env".to_string()]);
    assert_eq!(args, vec!["lib.rs".to_string(), "--crate-name=foo".to_string()]);
}

#[test]
fn extract_request_flags_equals_form() {
    let mut args = vec![
        "--rustc-quit-on-rmeta=true".to_string(),
        "--output-file=/x.json".to_string(),
        "--env-file=/y.env".to_string(),
        "lib.rs".to_string(),
    ];
    let f = extract_request_flags(&mut args);
    assert_eq!(f.phase, Phase::Metadata);
    assert_eq!(f.output_file.as_deref(), Some("/x.json"));
    assert_eq!(f.env_files, vec!["/y.env".to_string()]);
    assert_eq!(args, vec!["lib.rs".to_string()]);
}

#[test]
fn extract_request_flags_link_default() {
    let mut args = vec!["lib.rs".to_string()];
    let f = extract_request_flags(&mut args);
    assert_eq!(f.phase, Phase::Link);
    assert_eq!(f.output_file, None);
    assert!(f.env_files.is_empty());
}

#[test]
fn key_is_phase_independent_modulo_params_files() {
    let rustc_argv = vec!["rustc".to_string(), "--crate-name=foo".to_string()];
    let meta = vec![
        ("src/lib.rs".to_string(), "abc".to_string()),
        ("bazel-out/.../rustc-meta.params".to_string(), "deadbeef".to_string()),
    ];
    let link = vec![
        ("src/lib.rs".to_string(), "abc".to_string()),
        ("bazel-out/.../rustc-link.params".to_string(), "feedface".to_string()),
    ];
    assert_eq!(
        compute_key(&meta, &rustc_argv),
        compute_key(&link, &rustc_argv),
    );
}

#[test]
fn streaming_reader_packs_objects() {
    let data = br#"{"a":1}{"b":2}"#;
    let mut r = ByteReader::new(&data[..]);
    let a = read_json_value(&mut r).unwrap().unwrap();
    let b = read_json_value(&mut r).unwrap().unwrap();
    assert!(a.contains("\"a\""));
    assert!(b.contains("\"b\""));
    assert!(read_json_value(&mut r).unwrap().is_none());
}
