use klustrefs_csi::client::{
    LustreClient, LustreFilesystemInfo, SourceError, filesystem_info_from_counts,
};
use klustrefs_csi::command::CommandResult;

fn ok_result(stdout: &str) -> CommandResult {
    CommandResult {
        exit_ok: true,
        exit_code: 0,
        stdout: stdout.to_string(),
        stderr: String::new(),
    }
}

fn failed_result(stderr: &str) -> CommandResult {
    CommandResult {
        exit_ok: false,
        exit_code: 1,
        stdout: String::new(),
        stderr: stderr.to_string(),
    }
}

#[test]
fn validate_source_accepts_wellformed_addresses() {
    let client = LustreClient::new();
    assert!(client.validate_source("10.0.0.5@tcp0:/work").is_ok());
    assert!(client.validate_source("mgs@network:/fsname").is_ok());
    assert!(client.validate_source("a@b:/c").is_ok());
}

#[test]
fn validate_source_rejects_with_distinct_reasons() {
    let client = LustreClient::new();
    assert_eq!(
        client.validate_source("10.0.0.5tcp0:/work"),
        Err(SourceError::MissingAt)
    );
    assert_eq!(client.validate_source("mgs@network"), Err(SourceError::MissingSeparator));
    assert_eq!(
        client.validate_source("a@b:/c:/d"),
        Err(SourceError::MalformedSplit)
    );
    assert_eq!(client.validate_source("a@b:/"), Err(SourceError::EmptySide));
    assert_eq!(client.validate_source(":/name"), Err(SourceError::MissingAt));
    assert_eq!(client.validate_source("@x:/"), Err(SourceError::EmptySide));
}

#[test]
fn parse_lfs_df_sums_size_columns() {
    let client = LustreClient::new();
    let output = "UUID       bytes  Used  Available Use% Mounted on\n\
                  fs-OST0000 96.0G  3.0M  95.9G     1%   /mnt/fs[OST:0]\n\
                  fs-OST0001 1G     1K    1.0G      1%   /mnt/fs[OST:1]\n";
    let info = client.parse_lfs_df_output(output);
    assert_eq!(info.total_bytes, 103079215104 + 1073741824);
    assert_eq!(info.used_bytes, 3145728 + 1024);
    assert_eq!(info.available_bytes, info.total_bytes - info.used_bytes);
}

#[test]
fn parse_lfs_df_skips_header_short_and_unparsable_lines() {
    let client = LustreClient::new();
    // the header would parse as sizes if it were not skipped
    let output = "1K 2K 3K 4K\nshort line\nfs abcG 1K rest extra\nfs 2K xyz rest extra\n";
    let info = client.parse_lfs_df_output(output);
    // line three: total field unparsable, used 1K; line four: total 2K, used unparsable
    assert_eq!(info.total_bytes, 2048);
    assert_eq!(info.used_bytes, 1024);
    assert_eq!(info.available_bytes, 1024);
}

#[test]
fn parse_lfs_df_empty_output() {
    let client = LustreClient::new();
    let info = client.parse_lfs_df_output("");
    assert_eq!(info.total_bytes, 0);
    assert_eq!(info.used_bytes, 0);
    assert_eq!(info.available_bytes, 0);
}

#[test]
fn available_floors_at_zero_when_used_exceeds_total() {
    let info = filesystem_info_from_counts(100, 250);
    assert_eq!(info.total_bytes, 100);
    assert_eq!(info.used_bytes, 250);
    assert_eq!(info.available_bytes, 0);

    let client = LustreClient::new();
    // one line whose used column exceeds its total column
    let parsed = client.parse_lfs_df_output("header\nfs 1K 1M rest\n");
    assert_eq!(parsed.total_bytes, 1024);
    assert_eq!(parsed.used_bytes, 1048576);
    assert_eq!(parsed.available_bytes, 0);
}

#[test]
fn interpret_df_result_failure_carries_stderr() {
    let client = LustreClient::new();
    let r = client.interpret_df_result(&failed_result("no such mount"));
    assert_eq!(r, Err("no such mount".to_string()));
}

#[test]
fn interpret_df_result_success_parses() {
    let client = LustreClient::new();
    let r = client.interpret_df_result(&ok_result("header\nfs 1K 1K x y\n"));
    assert_eq!(
        r,
        Ok(LustreFilesystemInfo { total_bytes: 1024, used_bytes: 1024, available_bytes: 0 })
    );
}

#[test]
fn module_listed_looks_for_module_name() {
    let client = LustreClient::new();
    assert!(client.module_listed("Module  Size  Used by\nlustre 1024 3\n"));
    assert!(client.module_listed("xlustrey"));
    assert!(!client.module_listed("Module  Size  Used by\next4 1024 3\n"));
    assert!(!client.module_listed(""));
    assert!(!client.module_listed("lustr"));
}

#[test]
fn interpret_load_result_maps_exit_status() {
    let client = LustreClient::new();
    assert_eq!(client.interpret_load_result(&ok_result("")), Ok(()));
    assert_eq!(
        client.interpret_load_result(&failed_result("modprobe: module not found")),
        Err("modprobe: module not found".to_string())
    );
}

#[test]
fn version_from_output_takes_first_line() {
    let client = LustreClient::new();
    assert_eq!(client.version_from_output("lfs 2.15.0\nbuild: abc\n"), "lfs 2.15.0");
    assert_eq!(client.version_from_output("lfs 2.15.0\r\nbuild\n"), "lfs 2.15.0");
    assert_eq!(client.version_from_output(""), "unknown");
    assert_eq!(client.version_from_output("single"), "single");
}

#[test]
fn mount_healthy_needs_both_probes() {
    let client = LustreClient::new();
    assert!(client.mount_healthy(&ok_result(""), &ok_result("total 8")));
    assert!(!client.mount_healthy(&failed_result("stat: no such file"), &ok_result("")));
    assert!(!client.mount_healthy(&ok_result(""), &failed_result("ls: cannot open")));
}

#[test]
fn client_command_shapes() {
    let client = LustreClient::new();
    assert_eq!(client.lsmod_command(), vec!["lsmod"]);
    assert_eq!(client.modprobe_command(), vec!["modprobe", "lustre"]);
    assert_eq!(client.df_command("/mnt/fs"), vec!["lfs", "df", "-h", "/mnt/fs"]);
    assert_eq!(client.stat_command("/mnt/fs"), vec!["stat", "/mnt/fs"]);
    assert_eq!(client.list_command("/mnt/fs"), vec!["ls", "-la", "/mnt/fs"]);
    assert_eq!(client.version_command(), vec!["lfs", "--version"]);
}
