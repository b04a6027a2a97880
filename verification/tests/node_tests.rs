use klustrefs_csi::client::SourceError;
use klustrefs_csi::command::ExecutionContext;
use klustrefs_csi::config::Config;
use klustrefs_csi::identity::{IdentityService, PluginCapability};
use klustrefs_csi::mount::{MountOutcome, MountProgress, MountStep, UnmountOutcome};
use klustrefs_csi::node::{ErrorClass, NodeCapability, NodeService, PublishError, VolumeContext};
use klustrefs_csi::path::validate_volume_path;
use klustrefs_csi::server::CSIServer;

fn context(entries: &[(&str, &str)]) -> VolumeContext {
    let mut ctx = VolumeContext::new();
    for (k, v) in entries {
        ctx.insert(k.to_string(), v.to_string());
    }
    ctx
}

#[test]
fn publish_rejects_empty_identifiers_before_any_command() {
    let node = NodeService::new("node-a".to_string());
    let ctx = context(&[("source", "10.0.0.5@tcp0:/work")]);
    // validation fails up front: no mount sequence is ever started, so the
    // record of issued commands stays empty
    let issued: Vec<Vec<String>> = Vec::new();
    let r = node.prepare_publish("", "/mnt/v1", &ctx);
    assert_eq!(r, Err(PublishError::EmptyVolumeId));
    let r = node.prepare_publish("vol-1", "", &ctx);
    assert_eq!(r, Err(PublishError::EmptyTargetPath));
    assert!(issued.is_empty());
}

#[test]
fn publish_requires_source_in_context() {
    let node = NodeService::new("node-a".to_string());
    let ctx = context(&[("mountOptions", "flock")]);
    let r = node.prepare_publish("vol-1", "/mnt/v1", &ctx);
    assert_eq!(r, Err(PublishError::MissingSource));
    assert_eq!(r.unwrap_err().classification(), ErrorClass::InvalidArgument);
}

#[test]
fn publish_rejects_malformed_source() {
    let node = NodeService::new("node-a".to_string());
    let ctx = context(&[("source", "no-separator@here")]);
    let r = node.prepare_publish("vol-1", "/mnt/v1", &ctx);
    assert_eq!(r, Err(PublishError::InvalidSource(SourceError::MissingSeparator)));
    assert_eq!(r.unwrap_err().classification(), ErrorClass::InvalidArgument);
}

#[test]
fn publish_defaults_mount_options() {
    let node = NodeService::new("node-a".to_string());
    let ctx = context(&[("source", "10.0.0.5@tcp0:/work")]);
    let req = node.prepare_publish("vol-1", "/mnt/v1", &ctx).unwrap();
    assert_eq!(req.options, vec!["flock".to_string(), "user_xattr".to_string()]);
}

#[test]
fn publish_splits_given_mount_options() {
    let node = NodeService::new("node-a".to_string());
    let ctx = context(&[
        ("source", "10.0.0.5@tcp0:/work"),
        ("mountOptions", "ro,noatime,flock"),
    ]);
    let req = node.prepare_publish("vol-1", "/mnt/v1", &ctx).unwrap();
    assert_eq!(
        req.options,
        vec!["ro".to_string(), "noatime".to_string(), "flock".to_string()]
    );
}

#[test]
fn publish_empty_mount_options_yield_one_empty_token() {
    // splitting an empty option string yields a single empty token, and a
    // single empty token joins back to an empty option argument
    let node = NodeService::new("node-a".to_string());
    let ctx = context(&[("source", "10.0.0.5@tcp0:/work"), ("mountOptions", "")]);
    let req = node.prepare_publish("vol-1", "/mnt/v1", &ctx).unwrap();
    assert_eq!(req.options, vec![String::new()]);
}

#[test]
fn publish_end_to_end_scenario() {
    let node = NodeService::new("node-a".to_string());
    let ctx = context(&[
        ("source", "10.0.0.5@tcp0:/work"),
        ("mountOptions", "flock,user_xattr"),
    ]);
    let req = node.prepare_publish("vol-1", "/mnt/v1", &ctx).unwrap();
    assert_eq!(req.source, "10.0.0.5@tcp0:/work");
    assert_eq!(req.target, "/mnt/v1");

    // drive the mount: directory exists, target not mounted, mount succeeds
    let mgr = &node.mount_manager;
    let mut issued: Vec<Vec<String>> = Vec::new();
    let mut step = mgr.mount_start(&req);
    let outcome = loop {
        match step {
            MountStep::Run(progress, cmd) => {
                issued.push(cmd);
                let result = klustrefs_csi::command::CommandResult {
                    exit_ok: !matches!(progress, MountProgress::CheckMounted),
                    exit_code: 0,
                    stdout: String::new(),
                    stderr: String::new(),
                };
                step = mgr.mount_step(progress, &req, &result);
            }
            MountStep::Done(outcome) => break outcome,
        }
    };
    assert_eq!(outcome, MountOutcome::Mounted { already_mounted: false });
    // the mount invocation carries the filesystem type helper, the given
    // options, the source and the target
    assert_eq!(
        issued.last().unwrap(),
        &vec![
            "nsenter".to_string(),
            "-t".to_string(),
            "1".to_string(),
            "-m".to_string(),
            "/usr/sbin/mount.lustre".to_string(),
            "-o".to_string(),
            "flock,user_xattr".to_string(),
            "10.0.0.5@tcp0:/work".to_string(),
            "/mnt/v1".to_string(),
        ]
    );
    // success returns the empty acknowledgement
    assert_eq!(node.publish_response(outcome), Ok(()));
}

#[test]
fn publish_mount_failure_is_internal() {
    let node = NodeService::new("node-a".to_string());
    let outcome = MountOutcome::MountFailed {
        exit_code: 2,
        stderr: "cannot reach server".to_string(),
        stdout: String::new(),
    };
    let r = node.publish_response(outcome.clone());
    assert_eq!(r, Err(PublishError::MountFailure(outcome)));
    assert_eq!(r.unwrap_err().classification(), ErrorClass::Internal);
}

#[test]
fn unpublish_validates_identifiers() {
    let node = NodeService::new("node-a".to_string());
    assert_eq!(node.prepare_unpublish("", "/mnt/v1"), Err(PublishError::EmptyVolumeId));
    assert_eq!(node.prepare_unpublish("vol-1", ""), Err(PublishError::EmptyTargetPath));
    assert_eq!(node.prepare_unpublish("vol-1", "/mnt/v1"), Ok(()));
}

#[test]
fn unpublish_absorbs_unmount_failure() {
    let node = NodeService::new("node-a".to_string());
    let failed = UnmountOutcome::UnmountFailed { stderr: "target is busy".to_string() };
    assert_eq!(node.unpublish_response(failed), Ok(()));
    let fine = UnmountOutcome::Unmounted { already_unmounted: true };
    assert_eq!(node.unpublish_response(fine), Ok(()));
}

#[test]
fn volume_context_lookup() {
    let ctx = context(&[("a", "1"), ("b", "2"), ("a", "3")]);
    assert_eq!(ctx.get("a"), Some(&"1".to_string()));
    assert_eq!(ctx.get("b"), Some(&"2".to_string()));
    assert_eq!(ctx.get("c"), None);
}

#[test]
fn node_reports_capabilities_and_info() {
    let node = NodeService::new("node-a".to_string());
    assert_eq!(node.node_get_capabilities(), vec![NodeCapability::StageUnstageVolume]);
    let info = node.node_get_info();
    assert_eq!(info.node_id, "node-a");
    assert_eq!(info.max_volumes_per_node, 0);
}

#[test]
fn identity_reports_fixed_answers() {
    let id = IdentityService::new("lustre.csi.example.io".to_string(), "0.1.0".to_string());
    let info = id.get_plugin_info();
    assert_eq!(info.name, "lustre.csi.example.io");
    assert_eq!(info.vendor_version, "0.1.0");
    assert_eq!(
        id.get_plugin_capabilities(),
        vec![PluginCapability::VolumeAccessibilityConstraints]
    );
    assert!(id.probe());
}

#[test]
fn config_and_server_wire_the_services() {
    let config = Config::new("lustre.csi.example.io".to_string(), "node-a".to_string());
    assert_eq!(config.driver.name, "lustre.csi.example.io");
    assert_eq!(config.driver.node_id, "node-a");
    assert_eq!(config.driver.version, "0.1.0");
    assert_eq!(
        config.lustre.default_mount_options,
        vec!["flock".to_string(), "user_xattr".to_string()]
    );
    assert!(config.lustre.filesystem_mapping.is_empty());

    let server = CSIServer::new(config);
    assert_eq!(server.identity_service.driver_name, "lustre.csi.example.io");
    assert_eq!(server.identity_service.driver_version, "0.1.0");
    assert_eq!(server.node_service.node_id, "node-a");
    assert_eq!(
        server.node_service.mount_manager.ctx,
        ExecutionContext::HostNamespace
    );
}

#[test]
fn volume_path_must_be_nonempty() {
    assert!(validate_volume_path("/mnt/v1").is_ok());
    assert_eq!(validate_volume_path(""), Err("Path cannot be empty".to_string()));
}
