use tact::sandbox::{
    PathProbe, Sandbox, SandboxError, base_command_exec, clean_components, command_result,
    default_allowed_commands, path_components_exec,
};

fn sb(root: &str, canonical: Option<&str>) -> Sandbox {
    Sandbox::new(
        root.to_string(),
        canonical.map(|c| c.to_string()),
        vec!["cargo".to_string(), "git".to_string()],
    )
}

fn comps(v: Vec<Vec<char>>) -> Vec<String> {
    v.into_iter().map(|c| c.into_iter().collect()).collect()
}

#[test]
fn cleaning_drops_parent_and_current_components() {
    assert_eq!(comps(clean_components("../../etc/passwd")), vec!["etc", "passwd"]);
    assert_eq!(comps(clean_components("a/./b/../c")), vec!["a", "c"]);
    assert_eq!(comps(clean_components("/abs//x/")), vec!["abs", "x"]);
    assert!(clean_components("..").is_empty());
    assert!(clean_components("").is_empty());
}

#[test]
fn path_components_follow_std() {
    for p in ["/home/u/x", "./a/b", ".", "a/./b/.", "a//b", "", "/", "../x", "a/.."] {
        let expected: Vec<String> = std::path::Path::new(p)
            .components()
            .map(|c| c.as_os_str().to_string_lossy().to_string())
            .collect();
        assert_eq!(comps(path_components_exec(p)), expected, "path {:?}", p);
    }
}

#[test]
fn new_uses_root_when_not_canonical() {
    let s = sb(".", None);
    assert_eq!(s.canonical_root, ".");
    let s = sb(".", Some("/work"));
    assert_eq!(s.canonical_root, "/work");
}

#[test]
fn target_joins_root_and_cleaned_path() {
    let s = sb(".", Some("/work"));
    assert_eq!(s.target("src/../lib.rs"), vec![".", "lib.rs"]);
    assert_eq!(s.target_parent("lib.rs"), Some(vec![".".to_string()]));
    let r = sb("/", Some("/"));
    assert_eq!(r.target(".."), vec!["/"]);
    assert_eq!(r.target_parent(".."), None);
}

#[test]
fn safe_path_accepts_inside_and_refuses_outside() {
    let s = sb(".", Some("/work"));
    let ok = s.safe_path("a.txt", PathProbe::Exists(Ok("/work/a.txt".to_string())));
    assert_eq!(ok.ok(), Some(vec![".".to_string(), "a.txt".to_string()]));
    // An existing path whose canonical form (a symbolic link) leads elsewhere.
    let out = s.safe_path("link", PathProbe::Exists(Ok("/etc/passwd".to_string())));
    assert!(matches!(&out, Err(SandboxError::Escapes(p)) if p == "link"));
    assert_eq!(out.err().unwrap().message(), "Path escapes workspace: link");
    // A new file in an existing directory.
    let new = s.safe_path("d/new.txt", PathProbe::ParentExists(Ok("/work/d".to_string())));
    assert_eq!(new.ok(), Some(vec![".".to_string(), "d".to_string(), "new.txt".to_string()]));
    let new_out = s.safe_path("d/new.txt", PathProbe::ParentExists(Ok("/tmp/d".to_string())));
    assert!(matches!(new_out, Err(SandboxError::Escapes(_))));
    // Nothing exists yet: accepted inside the root.
    let missing = s.safe_path("x/y/z", PathProbe::Missing);
    assert_eq!(missing.ok(), Some(vec![".".to_string(), "x".to_string(), "y".to_string(), "z".to_string()]));
    // A file-system error is passed on.
    let io = s.safe_path("a", PathProbe::Exists(Err("denied".to_string())));
    assert!(matches!(&io, Err(SandboxError::Io(e)) if e == "denied"));
    assert_eq!(io.err().unwrap().message(), "denied");
}

#[test]
fn safe_path_without_parent_is_invalid() {
    let s = sb("/", Some("/"));
    let r = s.safe_path("..", PathProbe::Missing);
    assert!(matches!(&r, Err(SandboxError::Invalid(p)) if p == ".."));
    assert_eq!(r.err().unwrap().message(), "Invalid path: ..");
}

#[test]
fn commands_are_checked_by_first_word() {
    let s = sb(".", None);
    assert_eq!(s.check_command("git status").ok(), Some("git".to_string()));
    assert_eq!(s.check_command("  cargo   build").ok(), Some("cargo".to_string()));
    let refused = s.check_command("rm -rf /");
    assert!(matches!(&refused, Err(SandboxError::CommandNotAllowed(c)) if c == "rm"));
    assert_eq!(refused.err().unwrap().message(), "Command not allowed: rm");
    assert_eq!(base_command_exec("   "), "   ");
    assert_eq!(base_command_exec(""), "");
    assert_eq!(base_command_exec("\tls -l"), "ls");
}

#[test]
fn command_results() {
    assert_eq!(command_result(true, "out".to_string(), "err".to_string()).ok(), Some("out".to_string()));
    let failed = command_result(false, "out".to_string(), "err".to_string());
    assert_eq!(failed.err().unwrap().message(), "Command failed: err");
}

#[test]
fn default_commands() {
    assert_eq!(default_allowed_commands(), vec!["cargo", "git", "python", "npm"]);
}
