use pf::paths::{
    base_dir_of, config_path, desired_file_in, fnv1a_hex, join, lock_file_in, log_dir, log_file,
    run_dir, sanitize_host, session_log_file, socket_file_in, ssh_config_of, state_file_in,
    system_ssh_config, user_ssh_config, MAX_HOST_KEY,
};

fn text(path: Vec<u8>) -> String {
    String::from_utf8(path).unwrap()
}

#[test]
fn session_files_are_distinct_and_correctly_suffixed() {
    let run = b"/tmp/pf-run";

    assert_eq!(desired_file_in(run, "gpu-01"), b"/tmp/pf-run/gpu-01.desired.json");
    assert_eq!(state_file_in(run, "gpu-01"), b"/tmp/pf-run/gpu-01.state.json");
    assert_eq!(lock_file_in(run, "gpu-01"), b"/tmp/pf-run/gpu-01.lock");
    assert_eq!(socket_file_in(run, "gpu-01"), b"/tmp/pf-run/gpu-01.sock");
}

#[test]
fn ordinary_hosts_pass_through_unchanged() {
    assert_eq!(sanitize_host("gpu-01"), "gpu-01");
    assert_eq!(sanitize_host("build.example.com"), "build.example.com");
    assert_eq!(sanitize_host("user_box"), "user_box");
}

#[test]
fn path_and_glob_characters_are_replaced() {
    // Dots survive: real hostnames are full of them. Separators do not, which
    // is what actually prevents traversal.
    assert_eq!(sanitize_host("../etc/passwd"), ".._etc_passwd");
    assert_eq!(sanitize_host("a b"), "a_b");
    assert_eq!(sanitize_host("we*rd?"), "we_rd_");
}

#[test]
fn no_input_can_escape_the_run_directory() {
    for hostile in ["../etc/passwd", "/etc/passwd", "..", ".", "a/../../b", "x\0y"] {
        let key = sanitize_host(hostile);
        assert!(!key.contains('/'), "{hostile:?} kept a separator: {key:?}");
        assert!(!key.contains('\0'), "{hostile:?} kept a NUL: {key:?}");

        let run = std::path::Path::new("/tmp/pf-run");
        let path = text(desired_file_in(b"/tmp/pf-run", &key));
        assert_eq!(
            std::path::Path::new(&path).parent(),
            Some(run),
            "{hostile:?} escaped the run directory: {path:?}"
        );
    }
}

#[test]
fn long_hosts_are_truncated_with_a_hash_suffix() {
    let long = "a".repeat(200);
    let got = sanitize_host(&long);
    assert!(got.len() <= MAX_HOST_KEY, "got {} chars: {got}", got.len());
}

#[test]
fn two_different_long_hosts_do_not_collide() {
    let a = sanitize_host(&format!("{}x", "a".repeat(200)));
    let b = sanitize_host(&format!("{}y", "a".repeat(200)));
    assert_ne!(a, b, "truncation collapsed two distinct hosts");
}

#[test]
fn the_hash_is_stable_across_runs_and_toolchains() {
    // FNV-1a 64-bit of "hello", lowercase hex, first 8 chars.
    // Pinned deliberately: a socket path that changes on a toolchain bump would
    // orphan live control sockets.
    assert_eq!(&fnv1a_hex("hello")[..8], "a430d846");
}

#[test]
fn the_control_path_fits_in_sun_path() {
    let run = b"/Users/someone-with-a-long-name/.pf/run";
    let sock = socket_file_in(run, &sanitize_host(&"a".repeat(200)));
    assert!(sock.len() < 104, "control path is {} bytes: {:?}", sock.len(), sock);
}

#[test]
fn a_key_is_its_own_key() {
    let long = "gpu/".repeat(40);
    let key = sanitize_host(&long);
    assert_eq!(sanitize_host(&key), key);
    assert_eq!(key.len(), MAX_HOST_KEY);
}

#[test]
fn joining_goes_the_way_of_std_paths() {
    for (base, name) in [("/a", "b"), ("/a/", "b"), ("", "b"), ("/a", "/b"), ("a", "")] {
        let want = std::path::Path::new(base).join(name);
        assert_eq!(text(join(base.as_bytes(), name)), want.to_str().unwrap());
    }
}

#[test]
fn a_missing_home_is_an_error() {
    let err = base_dir_of(None).unwrap_err();
    assert_eq!(err.message(), "Cannot find home directory");
    assert_eq!(base_dir_of(Some(b"/home/u".to_vec())).unwrap(), b"/home/u/.pf");
}

#[test]
fn a_home_need_not_be_text() {
    let home = b"/home/\xff\xfe".to_vec();
    assert_eq!(base_dir_of(Some(home.clone())).unwrap(), b"/home/\xff\xfe/.pf");
    assert_eq!(ssh_config_of(Some(home)).unwrap(), b"/home/\xff\xfe/.ssh/config");
    assert_eq!(socket_file_in(b"/\xff/", "gpu-01"), b"/\xff/gpu-01.sock");
}

#[test]
fn everything_lives_under_one_directory() {
    // Whatever the home directory is, the layout below it is fixed.
    let run = text(run_dir().unwrap());
    let base = run.strip_suffix("/run").unwrap();
    assert!(base.ends_with("/.pf"), "unexpected base: {base}");
    assert_eq!(text(config_path().unwrap()), format!("{base}/config.toml"));
    assert_eq!(text(log_dir().unwrap()), format!("{base}/logs"));
    assert_eq!(text(log_file("dev").unwrap()), format!("{base}/logs/dev.log"));
    assert_eq!(
        text(session_log_file("gpu-01").unwrap()),
        format!("{base}/logs/gpu-01.log")
    );
}

#[test]
fn ssh_is_configured_per_user_and_for_all() {
    assert_eq!(
        ssh_config_of(Some(b"/home/u".to_vec())).unwrap(),
        b"/home/u/.ssh/config"
    );
    assert_eq!(ssh_config_of(None), None);
    assert!(user_ssh_config().unwrap().ends_with(b"/.ssh/config"));
    assert_eq!(system_ssh_config(), "/etc/ssh/ssh_config");
}
