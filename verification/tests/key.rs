use process_wrapper_worker::key::{compute_key, fnv1a, is_params_file};

fn pair(p: &str, d: &str) -> (String, String) {
    (p.to_string(), d.to_string())
}

fn list(args: &[&str]) -> Vec<String> {
    args.iter().map(|a| a.to_string()).collect()
}

#[test]
fn fnv1a_known_values() {
    assert_eq!(fnv1a(b""), 0xcbf2_9ce4_8422_2325);
    assert_eq!(fnv1a(b"a"), 0xaf63_dc4c_8601_ec8c);
    assert_eq!(fnv1a(b"foobar"), 0x8594_4171_f739_67e8);
}

#[test]
fn params_files_by_name() {
    assert!(is_params_file("x/rustc.params"));
    assert!(is_params_file(".params"));
    assert!(is_params_file("a/_internal_b"));
    assert!(is_params_file("a/internal/_b"));
    assert!(!is_params_file("x.params.txt"));
    assert!(!is_params_file("params"));
    assert!(!is_params_file("_internal_b"));
    assert!(!is_params_file("a/internal/b"));
    assert!(!is_params_file(""));
}

#[test]
fn key_is_the_hash_of_the_separated_parts() {
    let inputs = [pair("src/lib.rs", "abc"), pair("p.params", "x"), pair("\u{e9}", "")];
    let argv = list(&["--crate-name=foo", "", "-O"]);
    assert_eq!(
        compute_key(&inputs, &argv),
        fnv1a("src/lib.rs\0abc\0\u{e9}\0\0|--crate-name=foo\0\0-O\0".as_bytes())
    );
    assert_eq!(compute_key(&[], &[]), fnv1a(b"|"));
}

#[test]
fn params_files_do_not_count_wherever_they_stand() {
    let argv = list(&["a"]);
    let plain = compute_key(&[pair("x", "1"), pair("y", "2")], &argv);
    let file = || pair("z.params", "3");
    assert_eq!(compute_key(&[file(), pair("x", "1"), pair("y", "2")], &argv), plain);
    assert_eq!(compute_key(&[pair("x", "1"), file(), pair("y", "2"), file()], &argv), plain);
}

#[test]
fn what_counts_changes_the_key() {
    let argv = list(&["a", "b"]);
    let key = compute_key(&[pair("x", "1")], &argv);
    assert_ne!(compute_key(&[pair("x", "2")], &argv), key);
    assert_ne!(compute_key(&[pair("y", "1")], &argv), key);
    assert_ne!(compute_key(&[pair("x", "1")], &list(&["ab"])), key);
    assert_ne!(compute_key(&[pair("x", "1")], &list(&["b", "a"])), key);
}

#[test]
fn hashing_goes_on_where_it_stood() {
    let mut h = fnv1a(b"foo");
    for b in b"bar" {
        h = (h ^ (*b as u64)).wrapping_mul(0x100_0000_01b3);
    }
    assert_eq!(h, fnv1a(b"foobar"));
}
