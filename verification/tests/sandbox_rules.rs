use judge::sandbox::{execution_rules, Access, PathRule};

fn rule(path: &str, access: Access, required: bool) -> PathRule {
    PathRule { path: path.to_string(), access, required }
}

#[test]
fn execution_rules_follow_what_exists() {
    assert_eq!(
        execution_rules("/tmp/p/player", true, true, true),
        vec![
            rule("/tmp/p/player", Access::Program, true),
            rule("/usr", Access::Libraries, true),
            rule("/lib", Access::Libraries, false),
            rule("/lib64", Access::Libraries, false),
        ]
    );
    assert_eq!(
        execution_rules("bot", false, true, false),
        vec![rule("bot", Access::Program, true), rule("/lib", Access::Libraries, false)]
    );
    assert_eq!(execution_rules("bot", false, false, false), vec![rule("bot", Access::Program, true)]);
}

#[test]
fn execution_syscalls_allow_list() {
    let v = judge::sandbox::execution_syscalls();
    assert_eq!(v.len(), 69);
    assert_eq!(v[0], "read");
    assert_eq!(v[68], "dup3");
    assert!(v.contains(&"execve"));
    assert!(!v.contains(&"fork"));
    assert!(!v.contains(&"socket"));
    assert_eq!(judge::sandbox::DENIED_ERRNO, 1);
}
