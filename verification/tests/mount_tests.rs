use klustrefs_csi::command::{CommandResult, ExecutionContext};
use klustrefs_csi::mount::{
    MountManager, MountOutcome, MountProgress, MountRequest, MountStep, UnmountOutcome,
    UnmountProgress, UnmountStep,
};

fn argv(parts: &[&str]) -> Vec<String> {
    parts.iter().map(|s| s.to_string()).collect()
}

fn success(stdout: &str) -> CommandResult {
    CommandResult {
        exit_ok: true,
        exit_code: 0,
        stdout: stdout.to_string(),
        stderr: String::new(),
    }
}

fn failure(code: i32, stderr: &str) -> CommandResult {
    CommandResult {
        exit_ok: false,
        exit_code: code,
        stdout: String::new(),
        stderr: stderr.to_string(),
    }
}

fn request() -> MountRequest {
    MountRequest {
        source: "10.0.0.5@tcp0:/work".to_string(),
        target: "/mnt/v1".to_string(),
        options: argv(&["flock", "user_xattr"]),
    }
}

/// Drive a whole mount sequence against a simulated host, recording the
/// commands that were issued. Returns the outcome and the issued commands.
fn drive_mount(
    mgr: &MountManager,
    req: &MountRequest,
    dir_exists: bool,
    mkdir_ok: bool,
    mounted: bool,
    mount_ok: bool,
) -> (MountOutcome, Vec<Vec<String>>) {
    let mut issued: Vec<Vec<String>> = Vec::new();
    let mut step = mgr.mount_start(req);
    loop {
        match step {
            MountStep::Run(progress, cmd) => {
                issued.push(cmd.clone());
                let result = match progress {
                    MountProgress::EnsureDir => {
                        if dir_exists {
                            success("")
                        } else {
                            failure(1, "")
                        }
                    }
                    MountProgress::CreateDir => {
                        if mkdir_ok {
                            success("")
                        } else {
                            failure(1, "mkdir: permission denied")
                        }
                    }
                    MountProgress::CheckMounted => {
                        if mounted {
                            success("/mnt/v1\n")
                        } else {
                            failure(1, "")
                        }
                    }
                    MountProgress::Mounting => {
                        if mount_ok {
                            success("")
                        } else {
                            failure(2, "mount.lustre: cannot reach server")
                        }
                    }
                };
                step = mgr.mount_step(progress, req, &result);
            }
            MountStep::Done(outcome) => return (outcome, issued),
        }
    }
}

fn drive_unmount(
    mgr: &MountManager,
    target: &str,
    mounted: bool,
    umount_ok: bool,
) -> (UnmountOutcome, Vec<Vec<String>>) {
    let mut issued: Vec<Vec<String>> = Vec::new();
    let mut step = mgr.unmount_start(target);
    loop {
        match step {
            UnmountStep::Run(progress, cmd) => {
                issued.push(cmd.clone());
                let result = match progress {
                    UnmountProgress::CheckMounted => {
                        if mounted {
                            success("/mnt/v1\n")
                        } else {
                            failure(1, "")
                        }
                    }
                    UnmountProgress::Unmounting => {
                        if umount_ok {
                            success("")
                        } else {
                            failure(32, "umount: target is busy")
                        }
                    }
                };
                step = mgr.unmount_step(progress, target, &result);
            }
            UnmountStep::Done(outcome) => return (outcome, issued),
        }
    }
}

fn is_mount_command(cmd: &[String]) -> bool {
    cmd.iter().any(|a| a == "/usr/sbin/mount.lustre")
}

#[test]
fn mount_commands_run_in_host_namespace() {
    let mgr = MountManager::new();
    let req = request();
    let (outcome, issued) = drive_mount(&mgr, &req, true, true, false, true);
    assert_eq!(outcome, MountOutcome::Mounted { already_mounted: false });
    assert_eq!(issued[0], argv(&["nsenter", "-t", "1", "-m", "test", "-d", "/mnt/v1"]));
    assert_eq!(
        issued[1],
        argv(&["nsenter", "-t", "1", "-m", "findmnt", "-o", "TARGET", "-n", "/mnt/v1"])
    );
    assert_eq!(
        issued[2],
        argv(&[
            "nsenter",
            "-t",
            "1",
            "-m",
            "/usr/sbin/mount.lustre",
            "-o",
            "flock,user_xattr",
            "10.0.0.5@tcp0:/work",
            "/mnt/v1",
        ])
    );
}

#[test]
fn mount_creates_missing_directory() {
    let mgr = MountManager::new();
    let req = request();
    let (outcome, issued) = drive_mount(&mgr, &req, false, true, false, true);
    assert_eq!(outcome, MountOutcome::Mounted { already_mounted: false });
    assert_eq!(issued[1], argv(&["nsenter", "-t", "1", "-m", "mkdir", "-p", "/mnt/v1"]));
}

#[test]
fn mount_without_options_omits_option_argument() {
    let mgr = MountManager::with_context(ExecutionContext::Direct);
    let req = MountRequest {
        source: "a@b:/c".to_string(),
        target: "/mnt/v2".to_string(),
        options: Vec::new(),
    };
    let (outcome, issued) = drive_mount(&mgr, &req, true, true, false, true);
    assert_eq!(outcome, MountOutcome::Mounted { already_mounted: false });
    assert_eq!(issued[2], argv(&["/usr/sbin/mount.lustre", "a@b:/c", "/mnt/v2"]));
}

#[test]
fn mount_with_one_empty_option_omits_option_argument() {
    let mgr = MountManager::with_context(ExecutionContext::Direct);
    let req = MountRequest {
        source: "a@b:/c".to_string(),
        target: "/mnt/v2".to_string(),
        options: vec![String::new()],
    };
    let (_, issued) = drive_mount(&mgr, &req, true, true, false, true);
    assert_eq!(issued[2], argv(&["/usr/sbin/mount.lustre", "a@b:/c", "/mnt/v2"]));
}

#[test]
fn mount_twice_second_call_is_a_no_op() {
    let mgr = MountManager::new();
    let req = request();
    // first call: target unmounted, everything succeeds
    let (first, first_issued) = drive_mount(&mgr, &req, true, true, false, true);
    assert_eq!(first, MountOutcome::Mounted { already_mounted: false });
    assert!(first_issued.iter().any(|c| is_mount_command(c)));
    // second call: the mount table now reports the target mounted
    let (second, second_issued) = drive_mount(&mgr, &req, true, true, true, true);
    assert_eq!(second, MountOutcome::Mounted { already_mounted: true });
    assert!(!second_issued.iter().any(|c| is_mount_command(c)));
}

#[test]
fn unmount_twice_second_call_is_a_no_op() {
    let mgr = MountManager::new();
    let (first, first_issued) = drive_unmount(&mgr, "/mnt/v1", true, true);
    assert_eq!(first, UnmountOutcome::Unmounted { already_unmounted: false });
    assert!(first_issued.iter().any(|c| c.iter().any(|a| a == "umount")));
    let (second, second_issued) = drive_unmount(&mgr, "/mnt/v1", false, true);
    assert_eq!(second, UnmountOutcome::Unmounted { already_unmounted: true });
    assert!(!second_issued.iter().any(|c| c.iter().any(|a| a == "umount")));
}

#[test]
fn mount_failure_carries_diagnostics() {
    let mgr = MountManager::new();
    let req = request();
    let (outcome, _) = drive_mount(&mgr, &req, true, true, false, false);
    assert_eq!(
        outcome,
        MountOutcome::MountFailed {
            exit_code: 2,
            stderr: "mount.lustre: cannot reach server".to_string(),
            stdout: String::new(),
        }
    );
}

#[test]
fn mkdir_failure_carries_stderr() {
    let mgr = MountManager::new();
    let req = request();
    let (outcome, issued) = drive_mount(&mgr, &req, false, false, false, true);
    assert_eq!(
        outcome,
        MountOutcome::DirCreateFailed { stderr: "mkdir: permission denied".to_string() }
    );
    assert!(!issued.iter().any(|c| is_mount_command(c)));
}

#[test]
fn unmount_failure_carries_stderr() {
    let mgr = MountManager::new();
    let (outcome, _) = drive_unmount(&mgr, "/mnt/v1", true, false);
    assert_eq!(
        outcome,
        UnmountOutcome::UnmountFailed { stderr: "umount: target is busy".to_string() }
    );
}
