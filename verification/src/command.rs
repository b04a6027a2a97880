//! Logical commands. Every operation against the host is described as an
//! argument vector; the surrounding binary runs it and hands the outcome
//! back as a [`CommandResult`]. Commands either run directly or are
//! prefixed with a namespace-entry invocation so that they take effect in
//! the host's mount namespace.

use vstd::prelude::*;
use vstd::string::StringExecFns;
use crate::strutil::{join_comma, join_comma_str};

verus! {

/// How commands reach the host: directly in the current namespaces, or
/// wrapped to run inside the host's mount namespace. Chosen once at
/// startup and never changed.
#[derive(Debug, Clone, Copy, PartialEq, Eq, Structural)]
pub enum ExecutionContext {
    Direct,
    HostNamespace,
}

/// What running one command produced: whether it exited successfully, its
/// exit code, and its captured output streams.
#[derive(Debug, Clone)]
pub struct CommandResult {
    pub exit_ok: bool,
    pub exit_code: i32,
    pub stdout: String,
    pub stderr: String,
}

/// The namespace-entry prefix: enter the mount namespace of process 1.
pub open spec fn host_prefix() -> Seq<Seq<char>> {
    seq!["nsenter"@, "-t"@, "1"@, "-m"@]
}

/// A logical command as it is run under the given execution context.
pub open spec fn wrapped(ctx: ExecutionContext, argv: Seq<Seq<char>>) -> Seq<Seq<char>> {
    match ctx {
        ExecutionContext::Direct => argv,
        ExecutionContext::HostNamespace => host_prefix() + argv,
    }
}

/// The mount invocation: the mount helper, a comma-joined option argument
/// when any options are given, then source and target.
pub open spec fn mount_argv(
    ctx: ExecutionContext,
    source: Seq<char>,
    target: Seq<char>,
    options: Seq<Seq<char>>,
) -> Seq<Seq<char>> {
    let opts = join_comma(options);
    let base = if opts.len() == 0 {
        seq!["/usr/sbin/mount.lustre"@] + seq![source, target]
    } else {
        seq!["/usr/sbin/mount.lustre"@, "-o"@, opts] + seq![source, target]
    };
    wrapped(ctx, base)
}

/// The unmount invocation.
pub open spec fn umount_argv(ctx: ExecutionContext, target: Seq<char>) -> Seq<Seq<char>> {
    wrapped(ctx, seq!["umount"@, target])
}

/// The mount-table probe: succeeds with non-empty output exactly when the
/// target is mounted.
pub open spec fn findmnt_argv(ctx: ExecutionContext, target: Seq<char>) -> Seq<Seq<char>> {
    wrapped(ctx, seq!["findmnt"@, "-o"@, "TARGET"@, "-n"@, target])
}

/// The directory-existence probe.
pub open spec fn test_dir_argv(ctx: ExecutionContext, target: Seq<char>) -> Seq<Seq<char>> {
    wrapped(ctx, seq!["test"@, "-d"@, target])
}

/// The directory-creation command.
pub open spec fn mkdir_argv(ctx: ExecutionContext, target: Seq<char>) -> Seq<Seq<char>> {
    wrapped(ctx, seq!["mkdir"@, "-p"@, target])
}

/// Wrap an argument vector for the given execution context.
fn wrap(ctx: ExecutionContext, argv: Vec<String>) -> (r: Vec<String>)
    ensures
        r.deep_view() == wrapped(ctx, argv.deep_view()),
{
    match ctx {
        ExecutionContext::Direct => argv,
        ExecutionContext::HostNamespace => {
            let mut v: Vec<String> = Vec::new();
            v.push(String::from_str("nsenter"));
            v.push(String::from_str("-t"));
            v.push(String::from_str("1"));
            v.push(String::from_str("-m"));
            let mut i: usize = 0;
            proof {
                assert(v.deep_view() =~~= host_prefix());
                assert(argv.deep_view().subrange(0, 0) =~~= Seq::<Seq<char>>::empty());
            }
            while i < argv.len()
                invariant
                    0 <= i <= argv.len(),
                    v.deep_view() =~~= host_prefix() + argv.deep_view().subrange(0, i as int),
                decreases argv.len() - i,
            {
                let ghost old_v = v.deep_view();
                let s = argv[i].clone();
                v.push(s);
                proof {
                    assert(v.deep_view() =~~= old_v.push(argv.deep_view()[i as int]));
                    assert(host_prefix() + argv.deep_view().subrange(0, i + 1) =~~= old_v.push(
                        argv.deep_view()[i as int],
                    ));
                }
                i += 1;
            }
            proof {
                assert(argv.deep_view().subrange(0, argv.len() as int) =~~= argv.deep_view());
            }
            v
        },
    }
}

/// Build the mount command for a source, target and option list.
pub fn build_mount_command(
    ctx: ExecutionContext,
    source: &str,
    target: &str,
    options: &Vec<String>,
) -> (r: Vec<String>)
    ensures
        r.deep_view() == mount_argv(ctx, source@, target@, options.deep_view()),
{
    let opts = join_comma_str(options);
    let mut base: Vec<String> = Vec::new();
    base.push(String::from_str("/usr/sbin/mount.lustre"));
    if opts.unicode_len() > 0 {
        base.push(String::from_str("-o"));
        base.push(opts);
    }
    base.push(String::from_str(source));
    base.push(String::from_str(target));
    proof {
        if join_comma(options.deep_view()).len() == 0 {
            assert(base.deep_view() =~~= seq!["/usr/sbin/mount.lustre"@] + seq![
                source@,
                target@,
            ]);
        } else {
            assert(base.deep_view() =~~= seq![
                "/usr/sbin/mount.lustre"@,
                "-o"@,
                join_comma(options.deep_view()),
            ] + seq![source@, target@]);
        }
    }
    wrap(ctx, base)
}

/// Build the unmount command for a target.
pub fn build_umount_command(ctx: ExecutionContext, target: &str) -> (r: Vec<String>)
    ensures
        r.deep_view() == umount_argv(ctx, target@),
{
    let mut base: Vec<String> = Vec::new();
    base.push(String::from_str("umount"));
    base.push(String::from_str(target));
    proof {
        assert(base.deep_view() =~~= seq!["umount"@, target@]);
    }
    wrap(ctx, base)
}

/// Build the mount-table probe for a target.
pub fn build_findmnt_command(ctx: ExecutionContext, target: &str) -> (r: Vec<String>)
    ensures
        r.deep_view() == findmnt_argv(ctx, target@),
{
    let mut base: Vec<String> = Vec::new();
    base.push(String::from_str("findmnt"));
    base.push(String::from_str("-o"));
    base.push(String::from_str("TARGET"));
    base.push(String::from_str("-n"));
    base.push(String::from_str(target));
    proof {
        assert(base.deep_view() =~~= seq!["findmnt"@, "-o"@, "TARGET"@, "-n"@, target@]);
    }
    wrap(ctx, base)
}

/// Build the directory-existence probe for a target.
pub fn build_test_dir_command(ctx: ExecutionContext, target: &str) -> (r: Vec<String>)
    ensures
        r.deep_view() == test_dir_argv(ctx, target@),
{
    let mut base: Vec<String> = Vec::new();
    base.push(String::from_str("test"));
    base.push(String::from_str("-d"));
    base.push(String::from_str(target));
    proof {
        assert(base.deep_view() =~~= seq!["test"@, "-d"@, target@]);
    }
    wrap(ctx, base)
}

/// Build the directory-creation command for a target.
pub fn build_mkdir_command(ctx: ExecutionContext, target: &str) -> (r: Vec<String>)
    ensures
        r.deep_view() == mkdir_argv(ctx, target@),
{
    let mut base: Vec<String> = Vec::new();
    base.push(String::from_str("mkdir"));
    base.push(String::from_str("-p"));
    base.push(String::from_str(target));
    proof {
        assert(base.deep_view() =~~= seq!["mkdir"@, "-p"@, target@]);
    }
    wrap(ctx, base)
}

} // verus!
