//! What an executed program may still reach of the file system once it is
//! confined: its own binary, and the system libraries where they exist.
//! It may make only the system calls of an allow-list. Applying the rules
//! to the process is left to the caller.
use vstd::prelude::*;

verus! {

/// The rights a confined program keeps beneath a path.
#[derive(Debug, Clone, Copy, PartialEq, Eq)]
pub enum Access {
    /// Execute it, read it, and list it: the program's own binary.
    Program,
    /// Every read right, and execute: shared libraries.
    Libraries,
}

/// One path the program keeps, with its rights. A required rule whose path
/// cannot be opened fails the confinement; an optional one is skipped.
#[derive(Debug, Clone, PartialEq, Eq)]
pub struct PathRule {
    pub path: String,
    pub access: Access,
    pub required: bool,
}

pub open spec fn rule_view(r: PathRule) -> (Seq<char>, Access, bool) {
    (r.path@, r.access, r.required)
}

/// The rules, in the order they are added: the binary; `/usr` when it
/// exists; `/lib` and `/lib64` when they exist, each skipped if it cannot
/// be opened.
pub open spec fn execution_rules_spec(
    binary: Seq<char>,
    usr_exists: bool,
    lib_exists: bool,
    lib64_exists: bool,
) -> Seq<(Seq<char>, Access, bool)> {
    seq![(binary, Access::Program, true)] + (if usr_exists {
        seq![("/usr"@, Access::Libraries, true)]
    } else {
        Seq::empty()
    }) + (if lib_exists {
        seq![("/lib"@, Access::Libraries, false)]
    } else {
        Seq::empty()
    }) + (if lib64_exists {
        seq![("/lib64"@, Access::Libraries, false)]
    } else {
        Seq::empty()
    })
}

/// The confinement rules for running `binary`, given which of `/usr`,
/// `/lib` and `/lib64` exist.
pub fn execution_rules(binary: &str, usr_exists: bool, lib_exists: bool, lib64_exists: bool) -> (r:
    Vec<PathRule>)
    ensures
        r@.map_values(|x: PathRule| rule_view(x)) == execution_rules_spec(
            binary@,
            usr_exists,
            lib_exists,
            lib64_exists,
        ),
{
    let mut r: Vec<PathRule> = Vec::new();
    r.push(PathRule { path: binary.to_owned(), access: Access::Program, required: true });
    let ghost a = seq![(binary@, Access::Program, true)];
    let ghost b = if usr_exists {
        seq![("/usr"@, Access::Libraries, true)]
    } else {
        Seq::empty()
    };
    let ghost c = if lib_exists {
        seq![("/lib"@, Access::Libraries, false)]
    } else {
        Seq::empty()
    };
    let ghost d = if lib64_exists {
        seq![("/lib64"@, Access::Libraries, false)]
    } else {
        Seq::empty()
    };
    assert(r@.map_values(|x: PathRule| rule_view(x)) =~= a);
    if usr_exists {
        r.push(PathRule { path: String::from_str("/usr"), access: Access::Libraries, required: true });
    }
    assert(r@.map_values(|x: PathRule| rule_view(x)) =~= a + b);
    if lib_exists {
        r.push(PathRule { path: String::from_str("/lib"), access: Access::Libraries, required: false });
    }
    assert(r@.map_values(|x: PathRule| rule_view(x)) =~= a + b + c);
    if lib64_exists {
        r.push(
            PathRule { path: String::from_str("/lib64"), access: Access::Libraries, required: false },
        );
    }
    assert(r@.map_values(|x: PathRule| rule_view(x)) =~= a + b + c + d);
    r
}


/// The system calls a confined program may make; any other fails with
/// `DENIED_ERRNO`.
pub open spec fn execution_syscall_names() -> Seq<Seq<char>> {
    seq![
        "read"@,
        "write"@,
        "writev"@,
        "readv"@,
        "pread64"@,
        "pwrite64"@,
        "lseek"@,
        "ioctl"@,
        "fcntl"@,
        "open"@,
        "openat"@,
        "close"@,
        "stat"@,
        "fstat"@,
        "lstat"@,
        "newfstatat"@,
        "statx"@,
        "access"@,
        "faccessat"@,
        "faccessat2"@,
        "readlink"@,
        "readlinkat"@,
        "mmap"@,
        "mprotect"@,
        "munmap"@,
        "brk"@,
        "rt_sigaction"@,
        "rt_sigprocmask"@,
        "rt_sigreturn"@,
        "execve"@,
        "exit"@,
        "exit_group"@,
        "getpid"@,
        "getuid"@,
        "geteuid"@,
        "getgid"@,
        "getegid"@,
        "gettid"@,
        "futex"@,
        "clock_gettime"@,
        "clock_nanosleep"@,
        "nanosleep"@,
        "getrandom"@,
        "arch_prctl"@,
        "set_tid_address"@,
        "set_robust_list"@,
        "prlimit64"@,
        "getrlimit"@,
        "rseq"@,
        "uname"@,
        "getcwd"@,
        "getdents64"@,
        "prctl"@,
        "sched_getaffinity"@,
        "sched_yield"@,
        "poll"@,
        "ppoll"@,
        "select"@,
        "pselect6"@,
        "epoll_create"@,
        "epoll_create1"@,
        "epoll_ctl"@,
        "epoll_wait"@,
        "epoll_pwait"@,
        "pipe"@,
        "pipe2"@,
        "dup"@,
        "dup2"@,
        "dup3"@,
    ]
}

/// The error a refused system call returns: `EPERM`.
pub const DENIED_ERRNO: i32 = 1;

/// The names of the system calls a confined program may make, in the order
/// the filter lists them: file and descriptor I/O, memory, signals, process
/// identity and exit, time, randomness, polling, pipes and descriptor
/// duplication.
pub fn execution_syscalls() -> (r: Vec<&'static str>)
    ensures
        r@.map_values(|n: &'static str| n@) == execution_syscall_names(),
{
    let mut r: Vec<&'static str> = Vec::new();
    r.push("read");
    r.push("write");
    r.push("writev");
    r.push("readv");
    r.push("pread64");
    r.push("pwrite64");
    r.push("lseek");
    r.push("ioctl");
    r.push("fcntl");
    r.push("open");
    r.push("openat");
    r.push("close");
    r.push("stat");
    r.push("fstat");
    r.push("lstat");
    r.push("newfstatat");
    r.push("statx");
    r.push("access");
    r.push("faccessat");
    r.push("faccessat2");
    r.push("readlink");
    r.push("readlinkat");
    r.push("mmap");
    r.push("mprotect");
    r.push("munmap");
    r.push("brk");
    r.push("rt_sigaction");
    r.push("rt_sigprocmask");
    r.push("rt_sigreturn");
    r.push("execve");
    r.push("exit");
    r.push("exit_group");
    r.push("getpid");
    r.push("getuid");
    r.push("geteuid");
    r.push("getgid");
    r.push("getegid");
    r.push("gettid");
    r.push("futex");
    r.push("clock_gettime");
    r.push("clock_nanosleep");
    r.push("nanosleep");
    r.push("getrandom");
    r.push("arch_prctl");
    r.push("set_tid_address");
    r.push("set_robust_list");
    r.push("prlimit64");
    r.push("getrlimit");
    r.push("rseq");
    r.push("uname");
    r.push("getcwd");
    r.push("getdents64");
    r.push("prctl");
    r.push("sched_getaffinity");
    r.push("sched_yield");
    r.push("poll");
    r.push("ppoll");
    r.push("select");
    r.push("pselect6");
    r.push("epoll_create");
    r.push("epoll_create1");
    r.push("epoll_ctl");
    r.push("epoll_wait");
    r.push("epoll_pwait");
    r.push("pipe");
    r.push("pipe2");
    r.push("dup");
    r.push("dup2");
    r.push("dup3");
    proof {
        assert(r@.map_values(|n: &'static str| n@) =~= execution_syscall_names());
    }
    r
}

} // verus!
