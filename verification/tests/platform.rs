use codesync::platform::{
    local_path, validate_windows_manifest, validate_windows_paths, windows_manifest_script,
    windows_path,
};

#[test]
fn converts_windows_paths_without_touching_remote_syntax() {
    for (input, expected) in [
        (
            r"C:\Users\Some One\notes",
            "/cygdrive/c/Users/Some One/notes",
        ),
        (r"\\?\D:\notes\世界", "/cygdrive/d/notes/世界"),
        (r"\\server\share\notes", "//server/share/notes"),
        (r"\\?\UNC\server\share", "//server/share"),
        ("./", "./"),
    ] {
        assert_eq!(windows_path(input), expected);
    }
}

#[test]
fn rejects_aliases_reserved_names_and_incomplete_manifests() {
    for paths in [
        vec!["foo", "FOO"],
        vec!["Dir/a", "dir/b"],
        vec!["aux.txt"],
        vec!["a:b"],
        vec!["a\\b"],
        vec!["a."],
        vec!["a "],
        vec!["COM1.txt"],
        vec!["../escape"],
    ] {
        assert!(validate_windows_paths(&paths).is_err());
    }
    assert!(validate_windows_paths(&["notes/世界.txt", "notes/other.txt"]).is_ok());
    assert!(validate_windows_manifest("./\0./notes\0CODESYNC-END\0").is_ok());
    assert!(validate_windows_manifest("./notes\0").is_err());
}

#[test]
fn local_paths_change_only_on_windows() {
    assert_eq!(local_path(r"C:\work", true), "/cygdrive/c/work");
    assert_eq!(local_path(r"C:\work", false), r"C:\work");
}

#[test]
fn case_collisions_name_both_paths() {
    let error = validate_windows_paths(&["Notes/a", "notes/b"]).unwrap_err();
    assert_eq!(
        error,
        "Paths \"Notes\" and \"notes\" differ only by case. Rename one before syncing to Windows."
    );
    let error = validate_windows_paths(&["ok", "LPT²"]).unwrap_err();
    assert_eq!(
        error,
        "Linux path \"LPT²\" cannot be safely represented on Windows. Rename it on the server first."
    );
    assert!(validate_windows_paths(&["./", ".", "", "./a/b", "a/b"]).is_ok());
    assert!(validate_windows_paths(&["COM10"]).is_ok());
}

#[test]
fn manifest_script_quotes_the_root_and_excludes_patterns() {
    let script = windows_manifest_script("/srv/it's");
    assert!(script.starts_with("set -eu; cd -- '/srv/it'\\''s'; special=$(find . \\( -name '.git' -o -name 'target'"));
    assert!(script.contains("-name '*.key' \\) -prune -o -print0; printf 'CODESYNC-END\\0'"));
}

#[test]
fn windows_verdict_ignores_path_order() {
    assert!(validate_windows_paths(&["Notes/a", "notes/b"]).is_err());
    assert!(validate_windows_paths(&["notes/b", "Notes/a"]).is_err());
    assert!(validate_windows_paths(&["a/x", "b/y", "a/z"]).is_ok());
    assert!(validate_windows_paths(&["a/z", "a/x", "b/y", "a/x"]).is_ok());
}
