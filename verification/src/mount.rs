//! Idempotent mount and unmount, as state machines. The manager holds no
//! durable record of mount state: each operation re-derives it by probing
//! the host's mount table. A step takes the result of the previous command
//! and decides the next command or the outcome; the surrounding binary
//! runs the commands. A target that is already mounted is never mounted
//! again, and a target that is already unmounted is never unmounted again.

use vstd::prelude::*;
use crate::command::{
    ExecutionContext,
    CommandResult,
    test_dir_argv,
    mkdir_argv,
    findmnt_argv,
    mount_argv,
    umount_argv,
    build_test_dir_command,
    build_mkdir_command,
    build_findmnt_command,
    build_mount_command,
    build_umount_command,
};

verus! {

/// What a publish asks the manager to mount.
#[derive(Debug, Clone, PartialEq, Eq)]
pub struct MountRequest {
    pub source: String,
    pub target: String,
    pub options: Vec<String>,
}

/// Where a mount sequence stands: which command's result it awaits.
#[derive(Debug, Clone, Copy, PartialEq, Eq, Structural)]
pub enum MountProgress {
    EnsureDir,
    CreateDir,
    CheckMounted,
    Mounting,
}

/// Where an unmount sequence stands.
#[derive(Debug, Clone, Copy, PartialEq, Eq, Structural)]
pub enum UnmountProgress {
    CheckMounted,
    Unmounting,
}

/// How a mount sequence ended.
#[derive(Debug, Clone, PartialEq, Eq)]
pub enum MountOutcome {
    /// The target is mounted; `already_mounted` says whether no mount
    /// command was needed.
    Mounted { already_mounted: bool },
    /// The mount point directory could not be created.
    DirCreateFailed { stderr: String },
    /// The mount command itself failed.
    MountFailed { exit_code: i32, stderr: String, stdout: String },
}

/// How an unmount sequence ended.
#[derive(Debug, Clone, PartialEq, Eq)]
pub enum UnmountOutcome {
    /// The target is unmounted; `already_unmounted` says whether no
    /// unmount command was needed.
    Unmounted { already_unmounted: bool },
    /// The unmount command failed.
    UnmountFailed { stderr: String },
}

/// One step of a mount sequence: run another command, or finish.
#[derive(Debug, Clone, PartialEq, Eq)]
pub enum MountStep {
    Run(MountProgress, Vec<String>),
    Done(MountOutcome),
}

/// One step of an unmount sequence.
#[derive(Debug, Clone, PartialEq, Eq)]
pub enum UnmountStep {
    Run(UnmountProgress, Vec<String>),
    Done(UnmountOutcome),
}

/// What a mount step decides, abstracted from command payloads.
#[derive(Debug, Clone, Copy, PartialEq, Eq, Structural)]
pub enum MountDecision {
    MakeDir,
    ProbeMount,
    DoMount,
    DoneAlready,
    DoneMounted,
    FailedDir,
    FailedMount,
}

/// What an unmount step decides.
#[derive(Debug, Clone, Copy, PartialEq, Eq, Structural)]
pub enum UnmountDecision {
    DoUnmount,
    DoneNotMounted,
    DoneUnmounted,
    FailedUnmount,
}

/// The decision a mount step takes from the awaited command's success flag
/// and whether it produced output. A mount-table probe reports the target
/// mounted exactly when it succeeds with non-empty output.
pub open spec fn mount_decide(p: MountProgress, ok: bool, out_nonempty: bool) -> MountDecision {
    match p {
        MountProgress::EnsureDir => if ok {
            MountDecision::ProbeMount
        } else {
            MountDecision::MakeDir
        },
        MountProgress::CreateDir => if ok {
            MountDecision::ProbeMount
        } else {
            MountDecision::FailedDir
        },
        MountProgress::CheckMounted => if ok && out_nonempty {
            MountDecision::DoneAlready
        } else {
            MountDecision::DoMount
        },
        MountProgress::Mounting => if ok {
            MountDecision::DoneMounted
        } else {
            MountDecision::FailedMount
        },
    }
}

/// The decision an unmount step takes.
pub open spec fn unmount_decide(p: UnmountProgress, ok: bool, out_nonempty: bool)
    -> UnmountDecision {
    match p {
        UnmountProgress::CheckMounted => if ok && out_nonempty {
            UnmountDecision::DoUnmount
        } else {
            UnmountDecision::DoneNotMounted
        },
        UnmountProgress::Unmounting => if ok {
            UnmountDecision::DoneUnmounted
        } else {
            UnmountDecision::FailedUnmount
        },
    }
}

/// The outcome of one whole mount sequence against a world in which the
/// directory probe, directory creation and mount command come back as
/// given and the mount-table probe reports `mounted`.
pub open spec fn mount_run_decision(
    dir_exists: bool,
    mkdir_ok: bool,
    mounted: bool,
    mount_ok: bool,
) -> MountDecision {
    let d1 = mount_decide(MountProgress::EnsureDir, dir_exists, false);
    if d1 == MountDecision::MakeDir && !mkdir_ok {
        MountDecision::FailedDir
    } else {
        let d2 = mount_decide(MountProgress::CheckMounted, mounted, mounted);
        if d2 == MountDecision::DoneAlready {
            MountDecision::DoneAlready
        } else {
            mount_decide(MountProgress::Mounting, mount_ok, false)
        }
    }
}

/// Does that sequence issue a mount command at all?
pub open spec fn mount_run_attempts_mount(
    dir_exists: bool,
    mkdir_ok: bool,
    mounted: bool,
    mount_ok: bool,
) -> bool {
    let d1 = mount_decide(MountProgress::EnsureDir, dir_exists, false);
    if d1 == MountDecision::MakeDir && !mkdir_ok {
        false
    } else {
        mount_decide(MountProgress::CheckMounted, mounted, mounted) != MountDecision::DoneAlready
    }
}

/// The outcome of one whole unmount sequence, and whether it issues an
/// unmount command.
pub open spec fn unmount_run_decision(mounted: bool, umount_ok: bool) -> UnmountDecision {
    let d1 = unmount_decide(UnmountProgress::CheckMounted, mounted, mounted);
    if d1 == UnmountDecision::DoneNotMounted {
        UnmountDecision::DoneNotMounted
    } else {
        unmount_decide(UnmountProgress::Unmounting, umount_ok, false)
    }
}

pub open spec fn unmount_run_attempts_unmount(mounted: bool, umount_ok: bool) -> bool {
    unmount_decide(UnmountProgress::CheckMounted, mounted, mounted)
        != UnmountDecision::DoneNotMounted
}

/// Mount is idempotent: a first publish against an unmounted target whose
/// commands succeed ends with the target mounted, and a second publish,
/// whose mount-table probe now reports the target mounted, succeeds at
/// once and issues no mount command — whatever the directory probe or any
/// further command would have answered.
pub proof fn lemma_mount_idempotent(dir_exists: bool, mkdir_ok: bool, mount_ok: bool)
    ensures
        mount_run_decision(dir_exists, true, false, true) == MountDecision::DoneMounted,
        mount_run_attempts_mount(dir_exists, true, false, true),
        mount_run_decision(true, mkdir_ok, true, mount_ok) == MountDecision::DoneAlready,
        !mount_run_attempts_mount(true, mkdir_ok, true, mount_ok),
{
}

/// Unmount is idempotent: a first unpublish of a mounted target whose
/// unmount succeeds ends with the target unmounted, and a second
/// unpublish, whose probe now reports it unmounted, finishes as a no-op
/// without issuing an unmount command.
pub proof fn lemma_unmount_idempotent(umount_ok: bool)
    ensures
        unmount_run_decision(true, true) == UnmountDecision::DoneUnmounted,
        unmount_run_attempts_unmount(true, true),
        unmount_run_decision(false, umount_ok) == UnmountDecision::DoneNotMounted,
        !unmount_run_attempts_unmount(false, umount_ok),
{
}

/// Orchestrates idempotent mount and unmount against the host through the
/// chosen execution context.
#[derive(Debug, Clone)]
pub struct MountManager {
    pub ctx: ExecutionContext,
}

impl MountManager {
    /// A manager that runs every command in the host's mount namespace.
    pub fn new() -> (r: Self)
        ensures
            r.ctx == ExecutionContext::HostNamespace,
    {
        MountManager { ctx: ExecutionContext::HostNamespace }
    }

    /// A manager with the given execution context.
    pub fn with_context(ctx: ExecutionContext) -> (r: Self)
        ensures
            r.ctx == ctx,
    {
        MountManager { ctx }
    }

    /// Begin a mount: first make sure the target directory exists.
    pub fn mount_start(&self, req: &MountRequest) -> (step: MountStep)
        ensures
            step matches MountStep::Run(p, c) && p == MountProgress::EnsureDir && c.deep_view()
                == test_dir_argv(self.ctx, req.target@),
    {
        MountStep::Run(MountProgress::EnsureDir, build_test_dir_command(self.ctx, self.target_str(req)))
    }

    /// Advance a mount by one command result.
    pub fn mount_step(&self, progress: MountProgress, req: &MountRequest, result: &CommandResult)
        -> (step: MountStep)
        ensures
            ({
                let d = mount_decide(progress, result.exit_ok, result.stdout@.len() > 0);
                match d {
                    MountDecision::MakeDir => step matches MountStep::Run(p, c) && p
                        == MountProgress::CreateDir && c.deep_view() == mkdir_argv(
                        self.ctx,
                        req.target@,
                    ),
                    MountDecision::ProbeMount => step matches MountStep::Run(p, c) && p
                        == MountProgress::CheckMounted && c.deep_view() == findmnt_argv(
                        self.ctx,
                        req.target@,
                    ),
                    MountDecision::DoMount => step matches MountStep::Run(p, c) && p
                        == MountProgress::Mounting && c.deep_view() == mount_argv(
                        self.ctx,
                        req.source@,
                        req.target@,
                        req.options.deep_view(),
                    ),
                    MountDecision::DoneAlready => step matches MountStep::Done(
                        MountOutcome::Mounted { already_mounted },
                    ) && already_mounted == true,
                    MountDecision::DoneMounted => step matches MountStep::Done(
                        MountOutcome::Mounted { already_mounted },
                    ) && already_mounted == false,
                    MountDecision::FailedDir => step matches MountStep::Done(
                        MountOutcome::DirCreateFailed { stderr },
                    ) && stderr@ == result.stderr@,
                    MountDecision::FailedMount => step matches MountStep::Done(
                        MountOutcome::MountFailed { exit_code, stderr, stdout },
                    ) && exit_code == result.exit_code && stderr@ == result.stderr@ && stdout@
                        == result.stdout@,
                }
            }),
    {
        match progress {
            MountProgress::EnsureDir => {
                if result.exit_ok {
                    MountStep::Run(
                        MountProgress::CheckMounted,
                        build_findmnt_command(self.ctx, self.target_str(req)),
                    )
                } else {
                    MountStep::Run(
                        MountProgress::CreateDir,
                        build_mkdir_command(self.ctx, self.target_str(req)),
                    )
                }
            },
            MountProgress::CreateDir => {
                if result.exit_ok {
                    MountStep::Run(
                        MountProgress::CheckMounted,
                        build_findmnt_command(self.ctx, self.target_str(req)),
                    )
                } else {
                    MountStep::Done(
                        MountOutcome::DirCreateFailed { stderr: result.stderr.clone() },
                    )
                }
            },
            MountProgress::CheckMounted => {
                if result.exit_ok && result.stdout.as_str().unicode_len() > 0 {
                    MountStep::Done(MountOutcome::Mounted { already_mounted: true })
                } else {
                    MountStep::Run(
                        MountProgress::Mounting,
                        build_mount_command(
                            self.ctx,
                            req.source.as_str(),
                            self.target_str(req),
                            &req.options,
                        ),
                    )
                }
            },
            MountProgress::Mounting => {
                if result.exit_ok {
                    MountStep::Done(MountOutcome::Mounted { already_mounted: false })
                } else {
                    MountStep::Done(
                        MountOutcome::MountFailed {
                            exit_code: result.exit_code,
                            stderr: result.stderr.clone(),
                            stdout: result.stdout.clone(),
                        },
                    )
                }
            },
        }
    }

    /// Begin an unmount: first probe the mount table for the target.
    pub fn unmount_start(&self, target: &str) -> (step: UnmountStep)
        ensures
            step matches UnmountStep::Run(p, c) && p == UnmountProgress::CheckMounted
                && c.deep_view() == findmnt_argv(self.ctx, target@),
    {
        UnmountStep::Run(UnmountProgress::CheckMounted, build_findmnt_command(self.ctx, target))
    }

    /// Advance an unmount by one command result.
    pub fn unmount_step(&self, progress: UnmountProgress, target: &str, result: &CommandResult)
        -> (step: UnmountStep)
        ensures
            ({
                let d = unmount_decide(progress, result.exit_ok, result.stdout@.len() > 0);
                match d {
                    UnmountDecision::DoUnmount => step matches UnmountStep::Run(p, c) && p
                        == UnmountProgress::Unmounting && c.deep_view() == umount_argv(
                        self.ctx,
                        target@,
                    ),
                    UnmountDecision::DoneNotMounted => step matches UnmountStep::Done(
                        UnmountOutcome::Unmounted { already_unmounted },
                    ) && already_unmounted == true,
                    UnmountDecision::DoneUnmounted => step matches UnmountStep::Done(
                        UnmountOutcome::Unmounted { already_unmounted },
                    ) && already_unmounted == false,
                    UnmountDecision::FailedUnmount => step matches UnmountStep::Done(
                        UnmountOutcome::UnmountFailed { stderr },
                    ) && stderr@ == result.stderr@,
                }
            }),
    {
        match progress {
            UnmountProgress::CheckMounted => {
                if result.exit_ok && result.stdout.as_str().unicode_len() > 0 {
                    UnmountStep::Run(
                        UnmountProgress::Unmounting,
                        build_umount_command(self.ctx, target),
                    )
                } else {
                    UnmountStep::Done(UnmountOutcome::Unmounted { already_unmounted: true })
                }
            },
            UnmountProgress::Unmounting => {
                if result.exit_ok {
                    UnmountStep::Done(UnmountOutcome::Unmounted { already_unmounted: false })
                } else {
                    UnmountStep::Done(
                        UnmountOutcome::UnmountFailed { stderr: result.stderr.clone() },
                    )
                }
            },
        }
    }

    /// Borrow the request's target path.
    fn target_str<'a>(&self, req: &'a MountRequest) -> (r: &'a str)
        ensures
            r@ == req.target@,
    {
        req.target.as_str()
    }
}

} // verus!
