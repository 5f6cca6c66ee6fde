use apexos::json::JsonValue;
use apexos::tools::{
    deletion_blocked_message, denylist_check, df_row, entry_kind, fetch_method, is_thermal_zone,
    list, meminfo_value, memory_figures, mount_point, mount_selected, oversized_body_note,
    plan_run_command, plan_write_file, protected_path, read_buffer_len, read_limit,
    read_truncated, required_arg, tool_kind, unknown_tool_message, zone_label, ToolKind,
};

fn obj(fields: &[(&str, JsonValue)]) -> JsonValue {
    JsonValue::object(fields.iter().map(|(k, v)| (k.to_string(), v.deep_copy())).collect())
}

#[test]
fn denylist_blocks_destructive_commands() {
    assert_eq!(denylist_check("mkfs.ext4 /dev/sda1"), Some("mkfs commands are blocked"));
    assert_eq!(denylist_check("wipefs -a /dev/sdb"), Some("wipefs is blocked"));
    assert_eq!(denylist_check("dd if=x OF=/DEV/SDA"), Some("dd to raw block devices is blocked"));
    assert_eq!(
        denylist_check("fdisk /dev/sda"),
        Some("partition table editing on real devices is blocked")
    );
    assert_eq!(denylist_check("rm -rf /"), Some("rm -rf / is blocked"));
    assert_eq!(denylist_check("rm -rf /tmp /"), Some("rm -rf / is blocked"));
    assert_eq!(denylist_check("  rm -r / /home/x\t"), Some("rm -rf / is blocked"));
    assert_eq!(
        denylist_check("rm -rf --no-preserve-root /srv"),
        Some("rm -rf / is blocked")
    );
    assert_eq!(
        denylist_check("rm -rf /usr/local"),
        Some("destruction of system directories is blocked")
    );
    assert_eq!(denylist_check("> /etc/passwd"), Some("truncating auth files is blocked"));
    assert_eq!(denylist_check(":(){ :|:& };:"), Some("fork bomb pattern is blocked"));
}

#[test]
fn denylist_allows_ordinary_commands() {
    assert_eq!(denylist_check("ls -la /tmp"), None);
    assert_eq!(denylist_check("rm -rf /tmp/build"), None);
    assert_eq!(denylist_check("rm -rf --no-preserve-root /tmp/x"), None);
    assert_eq!(denylist_check("dd if=/dev/zero of=/tmp/file bs=1M count=1"), None);
    assert_eq!(denylist_check("fdisk -l"), None);
}

#[test]
fn run_command_plans_and_refusals() {
    match plan_run_command(&JsonValue::object(Vec::new())) {
        Err(e) => assert_eq!(e, "cmd is required"),
        Ok(_) => panic!("must refuse"),
    }
    match plan_run_command(&obj(&[("cmd", JsonValue::string("mkfs /dev/sda"))])) {
        Err(e) => assert_eq!(e, "BLOCKED: mkfs commands are blocked"),
        Ok(_) => panic!("must refuse"),
    }
    let env = obj(&[("A", JsonValue::string("1")), ("B", JsonValue::uint(2))]);
    let args = obj(&[
        ("cmd", JsonValue::string("echo hi")),
        ("cwd", JsonValue::string("/tmp")),
        ("env", env),
        ("timeout_secs", JsonValue::uint(1000)),
    ]);
    let plan = plan_run_command(&args).unwrap();
    assert_eq!(plan.cmd, "echo hi");
    assert_eq!(plan.cwd.as_deref(), Some("/tmp"));
    assert_eq!(plan.env, vec![("A".to_string(), "1".to_string())]);
    assert_eq!(plan.timeout_secs, 300);
    let plan = plan_run_command(&obj(&[("cmd", JsonValue::string("true"))])).unwrap();
    assert_eq!(plan.timeout_secs, 30);
    assert!(plan.cwd.is_none());
}

#[test]
fn protected_paths_are_refused() {
    assert_eq!(protected_path("/"), Some("/"));
    assert_eq!(protected_path("/usr/bin/ls"), Some("/usr"));
    assert_eq!(protected_path("/etc/shadow"), Some("/etc/shadow"));
    assert_eq!(protected_path("/home/user/file"), None);
    assert_eq!(protected_path("/usrlocal"), None);
    assert_eq!(deletion_blocked_message("/usr"), "deletion of /usr is blocked");
}

#[test]
fn tool_names_select_tools() {
    assert_eq!(tool_kind("run_command"), Some(ToolKind::RunCommand));
    assert_eq!(tool_kind("uptime"), Some(ToolKind::Uptime));
    assert_eq!(tool_kind("nope"), None);
    assert_eq!(unknown_tool_message("nope"), "unknown tool: nope");
}

#[test]
fn listed_tools_all_have_kinds() {
    let l = list();
    let tools = l.as_array().unwrap();
    assert_eq!(tools.len(), 11);
    for t in tools {
        let name = t.get_str("name").unwrap();
        assert!(tool_kind(name.as_str()).is_some(), "{name} is listed but not served");
        assert!(t.get("inputSchema").is_some());
    }
    let run = &tools[0];
    let required = run.get("inputSchema").unwrap().get("required").unwrap().as_array().unwrap();
    assert_eq!(required[0].as_str().unwrap(), "cmd");
}

#[test]
fn read_limits() {
    assert_eq!(read_limit(&JsonValue::object(Vec::new())), 1_048_576);
    assert_eq!(read_limit(&obj(&[("max_bytes", JsonValue::uint(10))])), 10);
    assert_eq!(read_buffer_len(10, 3), 4);
    assert_eq!(read_buffer_len(10, 100), 10);
    assert!(read_truncated(10, 10, 100));
    assert!(!read_truncated(4, 10, 3));
}

#[test]
fn memory_report_in_mebibytes() {
    assert_eq!(memory_figures(8192, 2048, 4096, 1024), (8, 2, 6, 3));
}

#[test]
fn mounts_reported() {
    assert!(mount_selected("/", None));
    assert!(!mount_selected("/proc", None));
    assert!(!mount_selected("/run", None));
    assert!(mount_selected("/home", Some("/home/user")));
    assert!(!mount_selected("/boot", Some("/home/user")));
}

#[test]
fn write_and_fetch_arguments() {
    assert_eq!(required_arg(&JsonValue::Null, "url").unwrap_err(), "url is required");
    assert_eq!(plan_write_file(&obj(&[])).unwrap_err(), "path is required");
    assert_eq!(
        plan_write_file(&obj(&[("path", JsonValue::string("/tmp/a"))])).unwrap_err(),
        "content is required"
    );
    let w = plan_write_file(&obj(&[
        ("path", JsonValue::string("/tmp/a")),
        ("content", JsonValue::string("x")),
        ("append", JsonValue::Bool(true)),
    ]))
    .unwrap();
    assert!(w.append);
    assert_eq!(fetch_method(&obj(&[])), Ok("GET".to_string()));
    assert_eq!(fetch_method(&obj(&[("method", JsonValue::string("patch"))])), Ok("PATCH".to_string()));
    assert_eq!(
        fetch_method(&obj(&[("method", JsonValue::string("trace"))])),
        Err("unsupported method: TRACE".to_string())
    );
}

#[test]
fn response_cap_and_entry_kinds() {
    assert_eq!(oversized_body_note(4_194_304), None);
    assert_eq!(
        oversized_body_note(5_000_000),
        Some("[truncated at 4MB, total 5000000 bytes]".to_string())
    );
    assert_eq!(entry_kind(Some(true)), "dir");
    assert_eq!(entry_kind(None), "unknown");
    assert_eq!(zone_label(" cpu-thermal\n", "thermal_zone0"), "cpu-thermal");
    assert_eq!(zone_label("", "thermal_zone1"), "thermal_zone1");
    assert!(is_thermal_zone("thermal_zone3"));
    assert!(!is_thermal_zone("cooling_device0"));
}

#[test]
fn system_files_are_read() {
    let meminfo = "MemTotal:       8000000 kB\nMemAvailable:   2000000 kB\nSwapTotal: 0 kB\nbogus\nMemTotal: 9 kB\n";
    assert_eq!(meminfo_value(meminfo, "MemTotal"), 9);
    assert_eq!(meminfo_value(meminfo, "MemAvailable"), 2000000);
    assert_eq!(meminfo_value(meminfo, "SwapFree"), 0);
    let df = "Filesystem Mounted 1B-blocks Used Avail Use%\n/dev/root / 100 40 60 40%\n";
    let row = df_row(df).unwrap();
    assert_eq!(row.mount, "/");
    assert_eq!((row.total, row.used, row.free), (100, 40, 60));
    assert_eq!(row.pct, "40");
    assert!(df_row("header only").is_none());
    assert!(df_row("h\nshort row\n").is_none());
    assert_eq!(mount_point("/dev/sda1 /boot vfat rw 0 0"), Some("/boot".to_string()));
    assert_eq!(mount_point("none"), None);
}

#[test]
fn white_space_padding_keeps_the_verdict() {
    for cmd in ["rm -rf /", "mkfs.ext4 /dev/sda", "ls -la", "rm -rf /tmp /"] {
        let padded = format!(" \t\u{3000}{}\n ", cmd);
        assert_eq!(denylist_check(&padded), denylist_check(cmd));
        assert_eq!(denylist_check(cmd.trim()), denylist_check(cmd));
    }
}
