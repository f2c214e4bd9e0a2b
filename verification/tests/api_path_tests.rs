use tunnet::api_path::{
    default_api_path, is_same_unix_path, legacy_user_state_dir, unix_api_candidates,
    windows_pipe_candidates, ApiEnv, ApiPlatform,
};

fn env(api: Option<&str>, ipc: Option<&str>, runtime: Option<&str>) -> ApiEnv {
    ApiEnv {
        api_path: api.map(String::from),
        ipc_path: ipc.map(String::from),
        runtime_dir: runtime.map(String::from),
    }
}

#[test]
fn unix_candidates_without_environment() {
    assert_eq!(
        unix_api_candidates(&env(None, None, None)),
        vec!["/run/tunnet/tunnetd.sock".to_string(), "/tmp/tunnetd.sock".to_string()]
    );
}

#[test]
fn unix_candidates_put_override_and_runtime_dir_first() {
    assert_eq!(
        unix_api_candidates(&env(Some("/srv/api.sock"), Some("/ignored.sock"), Some("/var/run/t"))),
        vec![
            "/srv/api.sock".to_string(),
            "/var/run/t/tunnetd.sock".to_string(),
            "/run/tunnet/tunnetd.sock".to_string(),
            "/tmp/tunnetd.sock".to_string(),
        ]
    );
}

#[test]
fn unix_candidates_use_ipc_path_when_api_path_unset() {
    assert_eq!(
        unix_api_candidates(&env(None, Some("/x/ipc.sock"), None))[0],
        "/x/ipc.sock".to_string()
    );
}

#[test]
fn unix_candidates_drop_the_same_path_named_twice() {
    assert_eq!(
        unix_api_candidates(&env(Some("/tmp//tunnetd.sock"), None, Some("/run/tunnet/"))),
        vec!["/tmp//tunnetd.sock".to_string(), "/run/tunnet/tunnetd.sock".to_string()]
    );
    assert_eq!(
        unix_api_candidates(&env(None, None, Some("/run/./tunnet"))),
        vec!["/run/./tunnet/tunnetd.sock".to_string(), "/tmp/tunnetd.sock".to_string()]
    );
}

#[test]
fn unix_path_equality_is_by_components() {
    assert!(is_same_unix_path("a/./b/", "a//b"));
    assert!(is_same_unix_path("/tmp/x", "/tmp/x/"));
    assert!(!is_same_unix_path("./a", "a"));
    assert!(!is_same_unix_path("/a", "a"));
    assert!(!is_same_unix_path("a/b", "a/c"));
    assert!(!is_same_unix_path("a/../b", "b"));
    assert!(!is_same_unix_path("", "."));
}

#[test]
fn pipe_candidates_trim_markers_and_end_with_default() {
    let markers = vec![Some("  \\\\.\\pipe\\custom \r\n".to_string()), Some("   ".to_string())];
    assert_eq!(
        windows_pipe_candidates(&markers),
        vec!["\\\\.\\pipe\\custom".to_string(), "\\\\.\\pipe\\tunnetd".to_string()]
    );
}

#[test]
fn pipe_candidates_name_each_pipe_once() {
    let markers = vec![
        Some("\\\\.\\pipe\\tunnetd".to_string()),
        None,
    ];
    assert_eq!(windows_pipe_candidates(&markers), vec!["\\\\.\\pipe\\tunnetd".to_string()]);
    assert_eq!(windows_pipe_candidates(&vec![None, None]), vec!["\\\\.\\pipe\\tunnetd".to_string()]);
}

#[test]
fn default_path_per_platform() {
    let marker = "C:\\ProgramData\\tunnet\\ipc\\tunnetd.pipe";
    assert_eq!(default_api_path(&env(Some("/o.sock"), None, None), ApiPlatform::Unix, marker), "/o.sock");
    assert_eq!(default_api_path(&env(None, None, None), ApiPlatform::Unix, marker), "/run/tunnet/tunnetd.sock");
    assert_eq!(
        default_api_path(&env(None, None, Some("/r")), ApiPlatform::Unix, marker),
        "/r/tunnetd.sock"
    );
    assert_eq!(default_api_path(&env(None, None, None), ApiPlatform::Windows, marker), marker);
    assert_eq!(default_api_path(&env(None, None, None), ApiPlatform::Other, marker), "tunnetd.api");
}

#[test]
fn legacy_state_dir_prefers_xdg() {
    assert_eq!(
        legacy_user_state_dir(&Some("/x/state".to_string()), &Some("/home/u".to_string())),
        Some("/x/state/tunnet".to_string())
    );
    assert_eq!(
        legacy_user_state_dir(&None, &Some("/home/u/".to_string())),
        Some("/home/u/.local/state/tunnet".to_string())
    );
    assert_eq!(legacy_user_state_dir(&None, &None), None);
}
