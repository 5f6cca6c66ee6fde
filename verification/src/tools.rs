//! The decisions of the built-in tool server (shell, files, system
//! information): which tool a name selects, what a command's arguments
//! mean, which commands and paths are refused, and the arithmetic on what
//! the system reports.
use vstd::prelude::*;
use crate::json::{JsonValue, JsonView, pairs_view};
use crate::text::{
    has_infix, has_prefix, occurs_at, all_white, lemma_trimmed_padding, has_suffix, trimmed, lowercase, to_chars, trim, to_lowercase,
    contains_str, starts_with_str, ends_with_str, str_eq, from_chars, decimal, uppercase,
    to_uppercase, decimal_string, split_on, split_first, words, until_white, parsed_unsigned,
    strip_trailing, split_chars, split_words, first_word, split_at_first, parse_unsigned,
    strip_trailing_exec, pieces_view,
};
use crate::dispatch::str_or;

verus! {

/// The tools the server offers.
#[derive(Clone, Copy, Debug, PartialEq, Eq, Structural)]
pub enum ToolKind {
    RunCommand,
    ReadFile,
    WriteFile,
    ListDir,
    CreateDir,
    DeletePath,
    HttpFetch,
    CpuTemp,
    DiskUsage,
    MemoryInfo,
    Uptime,
}

/// The tool a name selects.
pub open spec fn kind_named(name: Seq<char>) -> Option<ToolKind> {
    if name == "run_command"@ {
        Some(ToolKind::RunCommand)
    } else if name == "read_file"@ {
        Some(ToolKind::ReadFile)
    } else if name == "write_file"@ {
        Some(ToolKind::WriteFile)
    } else if name == "list_dir"@ {
        Some(ToolKind::ListDir)
    } else if name == "create_dir"@ {
        Some(ToolKind::CreateDir)
    } else if name == "delete_path"@ {
        Some(ToolKind::DeletePath)
    } else if name == "http_fetch"@ {
        Some(ToolKind::HttpFetch)
    } else if name == "cpu_temp"@ {
        Some(ToolKind::CpuTemp)
    } else if name == "disk_usage"@ {
        Some(ToolKind::DiskUsage)
    } else if name == "memory_info"@ {
        Some(ToolKind::MemoryInfo)
    } else if name == "uptime"@ {
        Some(ToolKind::Uptime)
    } else {
        None
    }
}

/// The tool a name selects; `None` for an unknown tool.
pub fn tool_kind(name: &str) -> (r: Option<ToolKind>)
    ensures
        r == kind_named(name@),
{
    if str_eq(name, "run_command") {
        Some(ToolKind::RunCommand)
    } else if str_eq(name, "read_file") {
        Some(ToolKind::ReadFile)
    } else if str_eq(name, "write_file") {
        Some(ToolKind::WriteFile)
    } else if str_eq(name, "list_dir") {
        Some(ToolKind::ListDir)
    } else if str_eq(name, "create_dir") {
        Some(ToolKind::CreateDir)
    } else if str_eq(name, "delete_path") {
        Some(ToolKind::DeletePath)
    } else if str_eq(name, "http_fetch") {
        Some(ToolKind::HttpFetch)
    } else if str_eq(name, "cpu_temp") {
        Some(ToolKind::CpuTemp)
    } else if str_eq(name, "disk_usage") {
        Some(ToolKind::DiskUsage)
    } else if str_eq(name, "memory_info") {
        Some(ToolKind::MemoryInfo)
    } else if str_eq(name, "uptime") {
        Some(ToolKind::Uptime)
    } else {
        None
    }
}

// ── the command denylist ────────────────────────────────────────────────────

/// A partition table editor named at the start of the command, aimed at a device.
pub open spec fn partition_edit(t: Seq<char>) -> bool {
    (has_prefix(t, "fdisk"@) || has_prefix(t, "parted"@) || has_prefix(t, "gdisk"@)) && has_infix(
        t,
        "/dev/"@,
    )
}

/// The root directory itself stands as a word of the command.
pub open spec fn root_operand(t: Seq<char>) -> bool {
    has_suffix(t, " /"@) || has_infix(t, " / "@)
}

/// A path under one of the directories that may be removed recursively.
pub open spec fn exempt_path(l: Seq<char>) -> bool {
    has_infix(l, "/var"@) || has_infix(l, "/tmp"@) || has_infix(l, "/home"@) || has_infix(l, "/opt"@)
}

/// A recursive `rm` aimed at the root directory: `/` itself among its words,
/// whatever else is named, or `--no-preserve-root` with a path that lies
/// outside the exempt directories.
pub open spec fn rm_root(t: Seq<char>, l: Seq<char>) -> bool {
    &&& has_infix(t, "rm"@)
    &&& has_infix(t, "-r"@)
    &&& (root_operand(t) || (has_infix(l, "--no-preserve-root"@) && has_infix(l, " /"@)
        && !exempt_path(l)))
}

/// A recursive `rm` of a system directory.
pub open spec fn rm_system(t: Seq<char>) -> bool {
    has_infix(t, "rm -rf /usr"@) || has_infix(t, "rm -rf /bin"@) || has_infix(t, "rm -rf /lib"@)
        || has_infix(t, "rm -rf /sbin"@) || has_infix(t, "rm -rf /boot"@) || has_infix(
        t,
        "rm -rf /etc/passwd"@,
    ) || has_infix(t, "rm -rf /etc/shadow"@)
}

/// Truncation of the password or shadow file.
pub open spec fn auth_truncation(t: Seq<char>) -> bool {
    (has_prefix(t, "> /etc/passwd"@) || has_prefix(t, "> /etc/shadow"@)) || (has_infix(
        t,
        "truncate"@,
    ) && has_infix(t, "/etc/passwd"@)) || (has_infix(t, "truncate"@) && has_infix(
        t,
        "/etc/shadow"@,
    ))
}

/// `dd` writing to a raw block device.
pub open spec fn dd_raw_device(t: Seq<char>, l: Seq<char>) -> bool {
    has_prefix(t, "dd"@) && (has_infix(l, "of=/dev/sd"@) || has_infix(l, "of=/dev/nvme"@)
        || has_infix(l, "of=/dev/mmcblk"@))
}

/// Why a command is refused, given its trimmed text `t` and the lower-case
/// form `l` of `t`; `None` when it may run.
pub open spec fn refusal(t: Seq<char>, l: Seq<char>) -> Option<Seq<char>> {
    if has_prefix(t, "mkfs"@) {
        Some("mkfs commands are blocked"@)
    } else if has_infix(t, "wipefs"@) {
        Some("wipefs is blocked"@)
    } else if dd_raw_device(t, l) {
        Some("dd to raw block devices is blocked"@)
    } else if partition_edit(t) {
        Some("partition table editing on real devices is blocked"@)
    } else if rm_root(t, l) {
        Some("rm -rf / is blocked"@)
    } else if rm_system(t) {
        Some("destruction of system directories is blocked"@)
    } else if auth_truncation(t) {
        Some("truncating auth files is blocked"@)
    } else if has_infix(t, ":(){ :|:"@) {
        Some("fork bomb pattern is blocked"@)
    } else {
        None
    }
}

/// Why the command `cmd` is refused, if it is.
pub open spec fn command_refusal(cmd: Seq<char>) -> Option<Seq<char>> {
    refusal(trimmed(cmd), lowercase(trimmed(cmd)))
}

/// Leading and trailing blanks never matter to the denylist: a command,
/// its trimmed text, and the command with blanks added at either end get
/// the same answer.
pub proof fn law_padding_keeps_verdict(w1: Seq<char>, cmd: Seq<char>, w2: Seq<char>)
    requires
        all_white(w1),
        all_white(w2),
    ensures
        command_refusal(trimmed(cmd)) == command_refusal(cmd),
        command_refusal(w1 + cmd + w2) == command_refusal(cmd),
{
    lemma_trimmed_padding(w1, cmd, w2);
}

/// The denylist verdict for a trimmed command `t` whose lower-case form is `l`.
pub fn denylist_verdict(t: &Vec<char>, l: &Vec<char>) -> (r: Option<&'static str>)
    ensures
        match r {
            Some(s) => refusal(t@, l@) == Some(s@),
            None => refusal(t@, l@) is None,
        },
{
    if starts_with_str(t, "mkfs") {
        return Some("mkfs commands are blocked");
    }
    if contains_str(t, "wipefs") {
        return Some("wipefs is blocked");
    }
    if starts_with_str(t, "dd") {
        if contains_str(l, "of=/dev/sd") || contains_str(l, "of=/dev/nvme") || contains_str(
            l,
            "of=/dev/mmcblk",
        ) {
            return Some("dd to raw block devices is blocked");
        }
    }
    if (starts_with_str(t, "fdisk") || starts_with_str(t, "parted") || starts_with_str(t, "gdisk"))
        && contains_str(t, "/dev/") {
        return Some("partition table editing on real devices is blocked");
    }
    if contains_str(t, "rm") && contains_str(t, "-r") {
        let root = ends_with_str(t, " /") || contains_str(t, " / ");
        let exempt = contains_str(l, "/var") || contains_str(l, "/tmp") || contains_str(l, "/home")
            || contains_str(l, "/opt");
        if root || (contains_str(l, "--no-preserve-root") && contains_str(l, " /") && !exempt) {
            return Some("rm -rf / is blocked");
        }
    }
    if contains_str(t, "rm -rf /usr") || contains_str(t, "rm -rf /bin") || contains_str(
        t,
        "rm -rf /lib",
    ) || contains_str(t, "rm -rf /sbin") || contains_str(t, "rm -rf /boot") || contains_str(
        t,
        "rm -rf /etc/passwd",
    ) || contains_str(t, "rm -rf /etc/shadow") {
        return Some("destruction of system directories is blocked");
    }
    if (starts_with_str(t, "> /etc/passwd") || starts_with_str(t, "> /etc/shadow")) || (
    contains_str(t, "truncate") && contains_str(t, "/etc/passwd")) || (contains_str(t, "truncate")
        && contains_str(t, "/etc/shadow")) {
        return Some("truncating auth files is blocked");
    }
    if contains_str(t, ":(){ :|:") {
        return Some("fork bomb pattern is blocked");
    }
    None
}

/// Why the shell command `cmd` is refused (destructive disk, device,
/// root-directory or auth-file operations, fork bombs); `None` when it may run.
pub fn denylist_check(cmd: &str) -> (r: Option<&'static str>)
    ensures
        match r {
            Some(s) => command_refusal(cmd@) == Some(s@),
            None => command_refusal(cmd@) is None,
        },
{
    let chars = to_chars(cmd);
    let t = trim(&chars);
    let l = to_lowercase(&t);
    denylist_verdict(&t, &l)
}

// ── run_command arguments ───────────────────────────────────────────────────

/// A shell command ready to run.
#[derive(Debug)]
pub struct CommandPlan {
    pub cmd: String,
    pub cwd: Option<String>,
    /// Extra environment variables, in the order the arguments give them.
    pub env: Vec<(String, String)>,
    pub timeout_secs: u64,
}

/// The string-valued members of an object, in order.
pub open spec fn string_members(fields: Seq<(Seq<char>, JsonView)>) -> Seq<(Seq<char>, Seq<char>)>
    decreases fields.len(),
{
    if fields.len() == 0 {
        Seq::empty()
    } else {
        let rest = string_members(fields.drop_last());
        match fields.last().1 {
            JsonView::Str(s) => rest.push((fields.last().0, s)),
            _ => rest,
        }
    }
}

/// The environment variables an `env` argument gives: the string members of
/// an object, none otherwise.
pub open spec fn env_of(v: JsonView) -> Seq<(Seq<char>, Seq<char>)> {
    match v {
        JsonView::Object(fields) => string_members(fields),
        _ => Seq::empty(),
    }
}

/// The timeout a `timeout_secs` argument gives: 30 s by default, at most 300 s.
pub open spec fn timeout_of(v: JsonView) -> u64 {
    let t = match v.as_u64() {
        Some(n) => n,
        None => 30,
    };
    if t < 300 {
        t
    } else {
        300
    }
}

/// The pairs of an environment list, as character sequences.
pub open spec fn env_view(v: Seq<(String, String)>) -> Seq<(Seq<char>, Seq<char>)> {
    v.map_values(|p: (String, String)| (p.0@, p.1@))
}

/// The string-valued members of an object argument.
pub fn string_members_of(v: &JsonValue) -> (r: Vec<(String, String)>)
    ensures
        env_view(r@) == env_of(v@),
{
    match v {
        JsonValue::Object(fields) => {
            proof {
                crate::json::lemma_object_view(*fields);
            }
            let ghost pv = pairs_view(fields@);
            let mut r: Vec<(String, String)> = Vec::new();
            let mut i: usize = 0;
            while i < fields.len()
                invariant
                    i <= fields@.len(),
                    pv == pairs_view(fields@),
                    env_view(r@) == string_members(pv.subrange(0, i as int)),
                decreases fields@.len() - i,
            {
                let ghost before = r@;
                let ghost sub = pv.subrange(0, i as int + 1);
                assert(sub.drop_last() =~= pv.subrange(0, i as int));
                assert(sub.last() == (fields@[i as int].0@, fields@[i as int].1@));
                match &fields[i].1 {
                    JsonValue::Str(s) => {
                        r.push((fields[i].0.clone(), s.clone()));
                        assert(env_view(r@) =~= env_view(before).push(
                            (fields@[i as int].0@, s@),
                        ));
                    },
                    _ => {},
                }
                i = i + 1;
            }
            assert(pv.subrange(0, fields@.len() as int) =~= pv);
            r
        },
        _ => {
            let r: Vec<(String, String)> = Vec::new();
            assert(env_view(r@) =~= Seq::<(Seq<char>, Seq<char>)>::empty());
            r
        },
    }
}

/// What `run_command` does with its arguments: refuses a missing command
/// or a denylisted one, else plans it with its working directory,
/// environment and timeout.
pub open spec fn command_plan_ok(args: JsonView, plan: CommandPlan) -> bool {
    &&& args.at("cmd"@).as_str() == Some(plan.cmd@)
    &&& match args.at("cwd"@).as_str() {
        Some(d) => plan.cwd matches Some(c) && c@ == d,
        None => plan.cwd is None,
    }
    &&& env_view(plan.env@) == env_of(args.at("env"@))
    &&& plan.timeout_secs == timeout_of(args.at("timeout_secs"@))
}

/// Plans a `run_command` call, or gives the error text it answers with.
pub fn plan_run_command(args: &JsonValue) -> (r: Result<CommandPlan, String>)
    ensures
        match args@.at("cmd"@).as_str() {
            None => r matches Err(e) && e@ == "cmd is required"@,
            Some(c) => match command_refusal(c) {
                Some(why) => r matches Err(e) && e@ == "BLOCKED: "@ + why,
                None => r matches Ok(plan) && command_plan_ok(args@, plan),
            },
        },
{
    let cmd = match args.get_str("cmd") {
        Some(c) => c,
        None => return Err("cmd is required".to_owned()),
    };
    match denylist_check(cmd.as_str()) {
        Some(reason) => {
            let msg = String::from_str("BLOCKED: ").concat(reason);
            return Err(msg);
        },
        None => {},
    }
    let timeout = match args.get_u64("timeout_secs") {
        Some(n) => n,
        None => 30,
    };
    let timeout_secs = if timeout < 300 {
        timeout
    } else {
        300
    };
    let cwd = match args.get_str("cwd") {
        Some(d) => Some(d.clone()),
        None => None,
    };
    let env = match args.get("env") {
        Some(e) => string_members_of(e),
        None => {
            let r: Vec<(String, String)> = Vec::new();
            assert(env_view(r@) =~= env_of(args@.at("env"@)));
            r
        },
    };
    Ok(CommandPlan { cmd: cmd.clone(), cwd, env, timeout_secs })
}

// ── delete_path ─────────────────────────────────────────────────────────────

/// The protected path that `path` is or lies under, if any (checked in the
/// order `/`, `/usr`, `/bin`, `/lib`, `/sbin`, `/boot`, `/etc/passwd`,
/// `/etc/shadow`).
pub open spec fn protected_root(path: Seq<char>) -> Option<Seq<char>> {
    if guards(path, "/"@) {
        Some("/"@)
    } else if guards(path, "/usr"@) {
        Some("/usr"@)
    } else if guards(path, "/bin"@) {
        Some("/bin"@)
    } else if guards(path, "/lib"@) {
        Some("/lib"@)
    } else if guards(path, "/sbin"@) {
        Some("/sbin"@)
    } else if guards(path, "/boot"@) {
        Some("/boot"@)
    } else if guards(path, "/etc/passwd"@) {
        Some("/etc/passwd"@)
    } else if guards(path, "/etc/shadow"@) {
        Some("/etc/shadow"@)
    } else {
        None
    }
}

/// `path` is `p` or lies under `p`.
pub open spec fn guards(path: Seq<char>, p: Seq<char>) -> bool {
    path == p || has_prefix(path, p.push('/'))
}

fn guards_exec(path: &Vec<char>, p: &str) -> (r: bool)
    ensures
        r == guards(path@, p@),
{
    let pv = to_chars(p);
    if crate::text::chars_eq(path, &pv) {
        return true;
    }
    let mut q = pv.clone();
    q.push('/');
    assert(q@ =~= p@.push('/'));
    crate::text::starts_with(path, &q)
}

/// The protected path that `path` is or lies under, if any; deleting it is refused.
pub fn protected_path(path: &str) -> (r: Option<&'static str>)
    ensures
        match r {
            Some(p) => protected_root(path@) == Some(p@),
            None => protected_root(path@) is None,
        },
{
    let v = to_chars(path);
    if guards_exec(&v, "/") {
        Some("/")
    } else if guards_exec(&v, "/usr") {
        Some("/usr")
    } else if guards_exec(&v, "/bin") {
        Some("/bin")
    } else if guards_exec(&v, "/lib") {
        Some("/lib")
    } else if guards_exec(&v, "/sbin") {
        Some("/sbin")
    } else if guards_exec(&v, "/boot") {
        Some("/boot")
    } else if guards_exec(&v, "/etc/passwd") {
        Some("/etc/passwd")
    } else if guards_exec(&v, "/etc/shadow") {
        Some("/etc/shadow")
    } else {
        None
    }
}

// ── read_file ───────────────────────────────────────────────────────────────

/// The read limit a `max_bytes` argument gives: 1 MiB by default.
pub fn read_limit(args: &JsonValue) -> (r: u64)
    ensures
        r == match args@.at("max_bytes"@).as_u64() {
            Some(n) => n,
            None => 1_048_576,
        },
{
    match args.get_u64("max_bytes") {
        Some(n) => n,
        None => 1_048_576,
    }
}

/// The buffer read into: at most the limit, at most one byte past the file size.
pub fn read_buffer_len(max_bytes: usize, size: usize) -> (r: usize)
    requires
        size < usize::MAX,
    ensures
        r == if max_bytes < size + 1 {
            max_bytes
        } else {
            (size + 1) as usize
        },
{
    if max_bytes < size + 1 {
        max_bytes
    } else {
        size + 1
    }
}

/// Whether a read of `n` bytes of a `size`-byte file under limit `max_bytes`
/// left part of the file unread.
pub fn read_truncated(n: usize, max_bytes: usize, size: usize) -> (r: bool)
    ensures
        r == (n >= max_bytes && size > max_bytes),
{
    n >= max_bytes && size > max_bytes
}

// ── memory_info ─────────────────────────────────────────────────────────────

/// The memory report in MiB: total, available, used, swap used.
pub fn memory_figures(total: u64, available: u64, swap_total: u64, swap_free: u64) -> (r: (
    u64,
    u64,
    u64,
    u64,
))
    requires
        available <= total,
        swap_free <= swap_total,
    ensures
        r == (total / 1024, available / 1024, ((total - available) / 1024) as u64, ((swap_total
            - swap_free) / 1024) as u64),
{
    (total / 1024, available / 1024, (total - available) / 1024, (swap_total - swap_free) / 1024)
}

// ── disk_usage ──────────────────────────────────────────────────────────────

/// A mount point that is reported: not a pseudo file system, and (when a
/// path filter is given) a prefix of that path.
pub open spec fn mount_reported(mount: Seq<char>, filter: Option<Seq<char>>) -> bool {
    &&& !(mount == "none"@ || has_prefix(mount, "/proc"@) || has_prefix(mount, "/sys"@)
        || has_prefix(mount, "/dev"@) || mount == "/run"@)
    &&& match filter {
        Some(f) => has_prefix(f, mount),
        None => true,
    }
}

/// Whether the mount point `mount` is reported under the optional path filter.
pub fn mount_selected(mount: &str, filter: Option<&str>) -> (r: bool)
    ensures
        r == mount_reported(
            mount@,
            match filter {
                Some(f) => Some(f@),
                None => None,
            },
        ),
{
    let m = to_chars(mount);
    if str_eq(mount, "none") || starts_with_str(&m, "/proc") || starts_with_str(&m, "/sys")
        || starts_with_str(&m, "/dev") || str_eq(mount, "/run") {
        return false;
    }
    match filter {
        Some(f) => {
            let fv = to_chars(f);
            crate::text::starts_with(&fv, &m)
        },
        None => true,
    }
}

// ── errors ──────────────────────────────────────────────────────────────────

/// The error text for an unknown tool.
pub fn unknown_tool_message(name: &str) -> (r: String)
    ensures
        r@ == "unknown tool: "@ + name@,
{
    String::from_str("unknown tool: ").concat(name)
}

/// The error text for a refused deletion.
pub fn deletion_blocked_message(p: &str) -> (r: String)
    ensures
        r@ == "deletion of "@ + p@ + " is blocked"@,
{
    String::from_str("deletion of ").concat(p).concat(" is blocked")
}

// ── arguments and small rules of the file and network tools ────────────────

/// A required string argument, or the error text for its absence.
pub fn required_arg(args: &JsonValue, key: &str) -> (r: Result<String, String>)
    ensures
        match args@.at(key@).as_str() {
            Some(v) => r matches Ok(x) && x@ == v,
            None => r matches Err(e) && e@ == key@ + " is required"@,
        },
{
    match args.get_str(key) {
        Some(v) => Ok(v.clone()),
        None => Err(String::from_str(key).concat(" is required")),
    }
}

/// What `write_file` writes: where, what, and whether it appends.
#[derive(Debug)]
pub struct WritePlan {
    pub path: String,
    pub content: String,
    pub append: bool,
}

/// Reads the arguments of `write_file`: `path` and `content` are required
/// (in that order); `append` is false unless given as true.
pub fn plan_write_file(args: &JsonValue) -> (r: Result<WritePlan, String>)
    ensures
        match (args@.at("path"@).as_str(), args@.at("content"@).as_str()) {
            (None, _) => r matches Err(e) && e@ == "path is required"@,
            (Some(_), None) => r matches Err(e) && e@ == "content is required"@,
            (Some(p), Some(c)) => r matches Ok(w) && w.path@ == p && w.content@ == c && w.append
                == (args@.at("append"@).as_bool() == Some(true)),
        },
{
    proof {
        reveal_strlit("path");
        reveal_strlit("content");
        reveal_strlit(" is required");
        reveal_strlit("path is required");
        reveal_strlit("content is required");
        assert("path"@ + " is required"@ =~= "path is required"@);
        assert("content"@ + " is required"@ =~= "content is required"@);
    }
    let path = match required_arg(args, "path") {
        Ok(p) => p,
        Err(e) => return Err(e),
    };
    let content = match required_arg(args, "content") {
        Ok(c) => c,
        Err(e) => return Err(e),
    };
    let append = match args.get_bool("append") {
        Some(b) => b,
        None => false,
    };
    Ok(WritePlan { path, content, append })
}

/// The request methods `http_fetch` sends.
pub open spec fn fetch_methods() -> Seq<Seq<char>> {
    seq!["GET"@, "POST"@, "PUT"@, "DELETE"@, "PATCH"@, "HEAD"@]
}

/// The method of an `http_fetch` call: `method` (GET by default) in upper
/// case; an error for one it does not send.
pub fn fetch_method(args: &JsonValue) -> (r: Result<String, String>)
    ensures
        ({
            let m = uppercase(str_or(args@.at("method"@), "GET"@));
            if fetch_methods().contains(m) {
                r matches Ok(x) && x@ == m
            } else {
                r matches Err(e) && e@ == "unsupported method: "@ + m
            }
        }),
{
    let raw = match args.get_str("method") {
        Some(m) => m.clone(),
        None => "GET".to_owned(),
    };
    let up = to_uppercase(&to_chars(raw.as_str()));
    let m = from_chars(&up);
    let ms = m.as_str();
    let ok = str_eq(ms, "GET") || str_eq(ms, "POST") || str_eq(ms, "PUT") || str_eq(ms, "DELETE")
        || str_eq(ms, "PATCH") || str_eq(ms, "HEAD");
    proof {
        let l = fetch_methods();
        let x = m@;
        if ok {
            if x == "GET"@ { assert(l[0] == x); }
            if x == "POST"@ { assert(l[1] == x); }
            if x == "PUT"@ { assert(l[2] == x); }
            if x == "DELETE"@ { assert(l[3] == x); }
            if x == "PATCH"@ { assert(l[4] == x); }
            if x == "HEAD"@ { assert(l[5] == x); }
        } else {
            assert forall|i: int| 0 <= i < l.len() implies l[i] != x by {}
        }
    }
    if ok {
        Ok(m)
    } else {
        Err(String::from_str("unsupported method: ").concat(ms))
    }
}

/// The largest response body `http_fetch` returns.
pub const FETCH_BODY_CAP: u64 = 4194304;

/// What replaces a response body over the cap.
pub fn oversized_body_note(len: u64) -> (r: Option<String>)
    ensures
        match r {
            Some(t) => len > FETCH_BODY_CAP && t@ == "[truncated at 4MB, total "@ + decimal(len as nat)
                + " bytes]"@,
            None => len <= FETCH_BODY_CAP,
        },
{
    if len > FETCH_BODY_CAP {
        Some(
            String::from_str("[truncated at 4MB, total ").concat(decimal_string(len).as_str()).concat(
                " bytes]",
            ),
        )
    } else {
        None
    }
}

/// The kind a directory entry is listed as.
pub fn entry_kind(is_dir: Option<bool>) -> (r: &'static str)
    ensures
        r@ == match is_dir {
            Some(true) => "dir"@,
            Some(false) => "file"@,
            None => "unknown"@,
        },
{
    match is_dir {
        Some(true) => "dir",
        Some(false) => "file",
        None => "unknown",
    }
}

/// The name a thermal zone is reported under: its type when the type
/// file says one, else the zone's directory name.
pub fn zone_label(type_text: &str, name: &str) -> (r: String)
    ensures
        r@ == if trimmed(type_text@).len() == 0 {
            name@
        } else {
            trimmed(type_text@)
        },
{
    let t = trim(&to_chars(type_text));
    if t.len() == 0 {
        name.to_owned()
    } else {
        from_chars(&t)
    }
}

/// A thermal zone directory.
pub fn is_thermal_zone(name: &str) -> (r: bool)
    ensures
        r == has_prefix(name@, "thermal_zone"@),
{
    let cs = to_chars(name);
    starts_with_str(&cs, "thermal_zone")
}

// ── /proc/meminfo ───────────────────────────────────────────────────────────

/// One `/proc/meminfo` line: the trimmed key before the first `:`, and the
/// first word after it read as a number (0 when it does not read).
pub open spec fn meminfo_entry(line: Seq<char>) -> Option<(Seq<char>, u64)> {
    let p = split_first(line, ':');
    match p.1 {
        Some(v) => Some(
            (
                trimmed(p.0),
                match parsed_unsigned(until_white(trimmed(v)), u64::MAX as nat) {
                    Some(n) => n as u64,
                    None => 0,
                },
            ),
        ),
        None => None,
    }
}

/// The value of `key` in `/proc/meminfo` lines: the last line with that
/// key wins; 0 when none has it.
pub open spec fn meminfo_lookup(lines: Seq<Seq<char>>, key: Seq<char>) -> u64
    decreases lines.len(),
{
    if lines.len() == 0 {
        0
    } else {
        match meminfo_entry(lines.last()) {
            Some(e) => if e.0 == key {
                e.1
            } else {
                meminfo_lookup(lines.drop_last(), key)
            },
            None => meminfo_lookup(lines.drop_last(), key),
        }
    }
}

/// Reads one line of `/proc/meminfo`.
fn meminfo_line(line: &Vec<char>) -> (r: Option<(String, u64)>)
    ensures
        match r {
            Some((k, v)) => meminfo_entry(line@) == Some((k@, v)),
            None => meminfo_entry(line@) is None,
        },
{
    let (k, v) = split_at_first(line, ':');
    match v {
        Some(val) => {
            let key = from_chars(&trim(&k));
            let word = first_word(&trim(&val));
            let n = match parse_unsigned(&word, u64::MAX) {
                Some(n) => n,
                None => 0,
            };
            Some((key, n))
        },
        None => None,
    }
}

/// The value of `key` in the text of `/proc/meminfo`.
pub fn meminfo_value(raw: &str, key: &str) -> (r: u64)
    ensures
        r == meminfo_lookup(split_on(raw@, '\n'), key@),
{
    let lines = split_chars(&to_chars(raw), '\n');
    let ghost lv = pieces_view(lines@);
    let mut i: usize = lines.len();
    proof {
        assert(lv.take(i as int) =~= lv);
    }
    while i > 0
        invariant
            i <= lines@.len(),
            lv == pieces_view(lines@),
            lv == split_on(raw@, '\n'),
            meminfo_lookup(lv, key@) == meminfo_lookup(lv.take(i as int), key@),
        decreases i,
    {
        proof {
            assert(lv.take(i as int).drop_last() =~= lv.take(i - 1));
            assert(lv.take(i as int).last() == lines@[i - 1]@);
        }
        match meminfo_line(&lines[i - 1]) {
            Some((k, v)) => {
                if str_eq(k.as_str(), key) {
                    return v;
                }
            },
            None => {},
        }
        i = i - 1;
    }
    0
}

// ── df and /proc/mounts ─────────────────────────────────────────────────────

/// The row `df` prints for one file system: mount point, total, used and
/// free bytes, and the use percentage text without its `%`.
#[derive(Debug)]
pub struct DfRow {
    pub mount: String,
    pub total: u64,
    pub used: u64,
    pub free: u64,
    pub pct: String,
}

/// A word read as a number, 0 when it does not read.
pub open spec fn count_or_zero(w: Seq<char>) -> u64 {
    match parsed_unsigned(w, u64::MAX as nat) {
        Some(n) => n as u64,
        None => 0,
    }
}

/// `df` output read for the one file system it reports: the line after the
/// header, with at least six words.
pub open spec fn df_row_of(text: Seq<char>) -> Option<(Seq<char>, u64, u64, u64, Seq<char>)> {
    let lines = split_on(text, '\n');
    if lines.len() < 2 {
        None
    } else {
        let w = words(lines[1]);
        if w.len() < 6 {
            None
        } else {
            Some(
                (
                    w[1],
                    count_or_zero(w[2]),
                    count_or_zero(w[3]),
                    count_or_zero(w[4]),
                    strip_trailing(w[5], '%'),
                ),
            )
        }
    }
}

fn number_or_zero(w: &Vec<char>) -> (r: u64)
    ensures
        r == count_or_zero(w@),
{
    match parse_unsigned(w, u64::MAX) {
        Some(n) => n,
        None => 0,
    }
}

/// Reads `df` output.
pub fn df_row(text: &str) -> (r: Option<DfRow>)
    ensures
        match r {
            Some(d) => df_row_of(text@) == Some((d.mount@, d.total, d.used, d.free, d.pct@)),
            None => df_row_of(text@) is None,
        },
{
    let lines = split_chars(&to_chars(text), '\n');
    if lines.len() < 2 {
        return None;
    }
    let w = split_words(&lines[1]);
    proof {
        assert(pieces_view(lines@)[1] == lines@[1]@);
    }
    if w.len() < 6 {
        return None;
    }
    proof {
        assert(pieces_view(w@)[1] == w@[1]@);
        assert(pieces_view(w@)[2] == w@[2]@);
        assert(pieces_view(w@)[3] == w@[3]@);
        assert(pieces_view(w@)[4] == w@[4]@);
        assert(pieces_view(w@)[5] == w@[5]@);
    }
    Some(
        DfRow {
            mount: from_chars(&w[1]),
            total: number_or_zero(&w[2]),
            used: number_or_zero(&w[3]),
            free: number_or_zero(&w[4]),
            pct: from_chars(&strip_trailing_exec(&w[5], '%')),
        },
    )
}

/// The mount point of a `/proc/mounts` line: its second word.
pub fn mount_point(line: &str) -> (r: Option<String>)
    ensures
        match r {
            Some(m) => words(line@).len() >= 2 && m@ == words(line@)[1],
            None => words(line@).len() < 2,
        },
{
    let w = split_words(&to_chars(line));
    if w.len() < 2 {
        None
    } else {
        proof {
            assert(pieces_view(w@)[1] == w@[1]@);
        }
        Some(from_chars(&w[1]))
    }
}

// ── the tool list ───────────────────────────────────────────────────────────

/// `{"type": ty}`.
pub open spec fn ty_view(ty: Seq<char>) -> JsonView {
    JsonView::Object(seq![("type"@, JsonView::Str(ty))])
}

/// `{"type": ty, "description": desc}`.
pub open spec fn ty_desc_view(ty: Seq<char>, desc: Seq<char>) -> JsonView {
    JsonView::Object(seq![("type"@, JsonView::Str(ty)), ("description"@, JsonView::Str(desc))])
}

/// A list of names as a JSON array.
pub open spec fn names_view(names: Seq<Seq<char>>) -> JsonView {
    JsonView::Array(names.map_values(|n: Seq<char>| JsonView::Str(n)))
}

/// An object schema with properties and required names.
pub open spec fn obj_schema_view(props: Seq<(Seq<char>, JsonView)>, required: Seq<Seq<char>>) -> JsonView {
    JsonView::Object(
        seq![
            ("type"@, JsonView::Str("object"@)),
            ("properties"@, JsonView::Object(props)),
            ("required"@, names_view(required)),
        ],
    )
}

/// An object schema with properties and nothing required.
pub open spec fn open_schema_view(props: Seq<(Seq<char>, JsonView)>) -> JsonView {
    JsonView::Object(seq![("type"@, JsonView::Str("object"@)), ("properties"@, JsonView::Object(props))])
}

/// A tool as listed: name, description, input schema.
pub open spec fn tool_view(name: Seq<char>, desc: Seq<char>, schema: JsonView) -> JsonView {
    JsonView::Object(
        seq![
            ("name"@, JsonView::Str(name)),
            ("description"@, JsonView::Str(desc)),
            ("inputSchema"@, schema),
        ],
    )
}

/// `{"type": "object", "description": desc, "additionalProperties": {"type": "string"}}`,
/// or without a description.
pub open spec fn string_map_view(desc: Option<Seq<char>>) -> JsonView {
    match desc {
        Some(d) => JsonView::Object(
            seq![
                ("type"@, JsonView::Str("object"@)),
                ("description"@, JsonView::Str(d)),
                ("additionalProperties"@, ty_view("string"@)),
            ],
        ),
        None => JsonView::Object(
            seq![("type"@, JsonView::Str("object"@)), ("additionalProperties"@, ty_view("string"@))],
        ),
    }
}

/// The names of the tools, in the order they are listed.
pub open spec fn listed_names() -> Seq<Seq<char>> {
    seq![
        "run_command"@,
        "read_file"@,
        "write_file"@,
        "list_dir"@,
        "create_dir"@,
        "delete_path"@,
        "http_fetch"@,
        "cpu_temp"@,
        "disk_usage"@,
        "memory_info"@,
        "uptime"@,
    ]
}

/// The tool list the server advertises.
pub open spec fn tool_list_view() -> JsonView {
    JsonView::Array(
        seq![
            tool_view(
                "run_command"@,
                "Execute a shell command. Subject to a hard denylist for destructive operations."@,
                obj_schema_view(
                    seq![
                        ("cmd"@, ty_desc_view("string"@, "Command to run (passed to /bin/sh -c)"@)),
                        ("cwd"@, ty_desc_view("string"@, "Working directory (optional)"@)),
                        ("env"@, string_map_view(Some("Extra environment variables (optional)"@))),
                        ("timeout_secs"@, ty_desc_view(
                            "integer"@,
                            "Timeout in seconds (default 30, max 300)"@,
                        )),
                    ],
                    seq!["cmd"@],
                ),
            ),
            tool_view(
                "read_file"@,
                "Read a file from the filesystem."@,
                obj_schema_view(
                    seq![
                        ("path"@, ty_view("string"@)),
                        ("max_bytes"@, ty_desc_view("integer"@, "Maximum bytes to read (default 1MB)"@)),
                    ],
                    seq!["path"@],
                ),
            ),
            tool_view(
                "write_file"@,
                "Write or append to a file."@,
                obj_schema_view(
                    seq![
                        ("path"@, ty_view("string"@)),
                        ("content"@, ty_view("string"@)),
                        ("append"@, ty_desc_view(
                            "boolean"@,
                            "Append instead of overwrite (default false)"@,
                        )),
                    ],
                    seq!["path"@, "content"@],
                ),
            ),
            tool_view(
                "list_dir"@,
                "List directory contents."@,
                obj_schema_view(
                    seq![
                        ("path"@, ty_view("string"@)),
                        ("recursive"@, ty_desc_view(
                            "boolean"@,
                            "Recurse into subdirectories (max 3 levels)"@,
                        )),
                    ],
                    seq!["path"@],
                ),
            ),
            tool_view(
                "create_dir"@,
                "Create a directory (and parents)."@,
                obj_schema_view(seq![("path"@, ty_view("string"@))], seq!["path"@]),
            ),
            tool_view(
                "delete_path"@,
                "Delete a file or directory."@,
                obj_schema_view(
                    seq![
                        ("path"@, ty_view("string"@)),
                        ("recursive"@, ty_desc_view("boolean"@, "Required true to delete a directory"@)),
                    ],
                    seq!["path"@],
                ),
            ),
            tool_view(
                "http_fetch"@,
                "Make an HTTP request."@,
                obj_schema_view(
                    seq![
                        ("url"@, ty_view("string"@)),
                        ("method"@, ty_desc_view("string"@, "HTTP method (default GET)"@)),
                        ("headers"@, string_map_view(None)),
                        ("body"@, ty_view("string"@)),
                    ],
                    seq!["url"@],
                ),
            ),
            tool_view(
                "cpu_temp"@,
                "Read CPU temperature from thermal sensors."@,
                open_schema_view(Seq::empty()),
            ),
            tool_view(
                "disk_usage"@,
                "Report disk usage for mounted filesystems."@,
                open_schema_view(
                    seq![
                        ("path"@, ty_desc_view(
                            "string"@,
                            "Filter to filesystem containing this path (optional)"@,
                        )),
                    ],
                ),
            ),
            tool_view(
                "memory_info"@,
                "Report system memory usage from /proc/meminfo."@,
                open_schema_view(Seq::empty()),
            ),
            tool_view(
                "uptime"@,
                "Report system uptime and load averages."@,
                open_schema_view(Seq::empty()),
            ),
        ],
    )
}

fn obj(fields: Vec<(String, JsonValue)>) -> (r: JsonValue)
    ensures
        r@ == JsonView::Object(pairs_view(fields@)),
{
    JsonValue::object(fields)
}

fn ty(t: &str) -> (r: JsonValue)
    ensures
        r@ == ty_view(t@),
{
    let f = vec![("type".to_owned(), JsonValue::string(t))];
    let ghost fv = pairs_view(f@);
    let r = obj(f);
    proof {
        assert(fv =~= seq![("type"@, JsonView::Str(t@))]);
    }
    r
}

fn ty_desc(t: &str, d: &str) -> (r: JsonValue)
    ensures
        r@ == ty_desc_view(t@, d@),
{
    let f = vec![
        ("type".to_owned(), JsonValue::string(t)),
        ("description".to_owned(), JsonValue::string(d)),
    ];
    let ghost fv = pairs_view(f@);
    let r = obj(f);
    proof {
        assert(fv =~= seq![("type"@, JsonView::Str(t@)), ("description"@, JsonView::Str(d@))]);
    }
    r
}

fn string_map(d: Option<&str>) -> (r: JsonValue)
    ensures
        r@ == string_map_view(
            match d {
                Some(x) => Some(x@),
                None => None,
            },
        ),
{
    let mut f: Vec<(String, JsonValue)> = Vec::new();
    f.push(("type".to_owned(), JsonValue::string("object")));
    match d {
        Some(x) => {
            f.push(("description".to_owned(), JsonValue::string(x)));
        },
        None => {},
    }
    f.push(("additionalProperties".to_owned(), ty("string")));
    let ghost fv = pairs_view(f@);
    let r = obj(f);
    proof {
        match d {
            Some(x) => {
                assert(fv =~= seq![
                    ("type"@, JsonView::Str("object"@)),
                    ("description"@, JsonView::Str(x@)),
                    ("additionalProperties"@, ty_view("string"@)),
                ]);
            },
            None => {
                assert(fv =~= seq![
                    ("type"@, JsonView::Str("object"@)),
                    ("additionalProperties"@, ty_view("string"@)),
                ]);
            },
        }
    }
    r
}

fn names_json(names: Vec<&str>) -> (r: JsonValue)
    ensures
        r@ == names_view(names@.map_values(|n: &str| n@)),
{
    let mut out: Vec<JsonValue> = Vec::new();
    let mut i: usize = 0;
    while i < names.len()
        invariant
            i <= names@.len(),
            out@.len() == i,
            forall|j: int| 0 <= j < i ==> #[trigger] out@[j]@ == JsonView::Str(names@[j]@),
        decreases names@.len() - i,
    {
        out.push(JsonValue::string(names[i]));
        i = i + 1;
    }
    let ghost ov = crate::json::elems_view(out@);
    let r = JsonValue::array(out);
    proof {
        assert(ov =~= names@.map_values(|n: &str| n@).map_values(|n: Seq<char>| JsonView::Str(n)));
    }
    r
}

fn obj_schema(props: Vec<(String, JsonValue)>, required: Vec<&str>) -> (r: JsonValue)
    ensures
        r@ == obj_schema_view(pairs_view(props@), required@.map_values(|n: &str| n@)),
{
    let ghost pv = pairs_view(props@);
    let ghost rv = required@.map_values(|n: &str| n@);
    let f = vec![
        ("type".to_owned(), JsonValue::string("object")),
        ("properties".to_owned(), obj(props)),
        ("required".to_owned(), names_json(required)),
    ];
    let ghost fv = pairs_view(f@);
    let r = obj(f);
    proof {
        assert(fv =~= seq![
            ("type"@, JsonView::Str("object"@)),
            ("properties"@, JsonView::Object(pv)),
            ("required"@, names_view(rv)),
        ]);
    }
    r
}

fn open_schema(props: Vec<(String, JsonValue)>) -> (r: JsonValue)
    ensures
        r@ == open_schema_view(pairs_view(props@)),
{
    let ghost pv = pairs_view(props@);
    let f = vec![
        ("type".to_owned(), JsonValue::string("object")),
        ("properties".to_owned(), obj(props)),
    ];
    let ghost fv = pairs_view(f@);
    let r = obj(f);
    proof {
        assert(fv =~= seq![("type"@, JsonView::Str("object"@)), ("properties"@, JsonView::Object(pv))]);
    }
    r
}

fn tool(name: &str, desc: &str, schema: JsonValue) -> (r: JsonValue)
    ensures
        r@ == tool_view(name@, desc@, schema@),
{
    let ghost sv = schema@;
    let f = vec![
        ("name".to_owned(), JsonValue::string(name)),
        ("description".to_owned(), JsonValue::string(desc)),
        ("inputSchema".to_owned(), schema),
    ];
    let ghost fv = pairs_view(f@);
    let r = obj(f);
    proof {
        assert(fv =~= seq![
            ("name"@, JsonView::Str(name@)),
            ("description"@, JsonView::Str(desc@)),
            ("inputSchema"@, sv),
        ]);
    }
    r
}

fn member_of(k: &str, v: JsonValue) -> (r: (String, JsonValue))
    ensures
        r.0@ == k@,
        r.1@ == v@,
{
    (k.to_owned(), v)
}

fn p1(a: (String, JsonValue)) -> (r: Vec<(String, JsonValue)>)
    ensures
        pairs_view(r@) == seq![(a.0@, a.1@)],
{
    let r = vec![a];
    proof {
        assert(pairs_view(r@) =~= seq![(r@[0].0@, r@[0].1@)]);
    }
    r
}

fn p2(a: (String, JsonValue), b: (String, JsonValue)) -> (r: Vec<(String, JsonValue)>)
    ensures
        pairs_view(r@) == seq![(a.0@, a.1@), (b.0@, b.1@)],
{
    let r = vec![a, b];
    proof {
        assert(pairs_view(r@) =~= seq![(r@[0].0@, r@[0].1@), (r@[1].0@, r@[1].1@)]);
    }
    r
}

fn p3(a: (String, JsonValue), b: (String, JsonValue), c: (String, JsonValue)) -> (r: Vec<(String, JsonValue)>)
    ensures
        pairs_view(r@) == seq![(a.0@, a.1@), (b.0@, b.1@), (c.0@, c.1@)],
{
    let r = vec![a, b, c];
    proof {
        assert(pairs_view(r@) =~= seq![
            (r@[0].0@, r@[0].1@),
            (r@[1].0@, r@[1].1@),
            (r@[2].0@, r@[2].1@),
        ]);
    }
    r
}

fn p4(a: (String, JsonValue), b: (String, JsonValue), c: (String, JsonValue), d: (String, JsonValue)) -> (r: Vec<
    (String, JsonValue),
>)
    ensures
        pairs_view(r@) == seq![(a.0@, a.1@), (b.0@, b.1@), (c.0@, c.1@), (d.0@, d.1@)],
{
    let r = vec![a, b, c, d];
    proof {
        assert(pairs_view(r@) =~= seq![
            (r@[0].0@, r@[0].1@),
            (r@[1].0@, r@[1].1@),
            (r@[2].0@, r@[2].1@),
            (r@[3].0@, r@[3].1@),
        ]);
    }
    r
}

fn n1(a: &'static str) -> (r: Vec<&'static str>)
    ensures
        r@.map_values(|n: &str| n@) == seq![a@],
{
    let r = vec![a];
    proof {
        assert(r@.map_values(|n: &str| n@) =~= seq![a@]);
    }
    r
}

fn n2(a: &'static str, b: &'static str) -> (r: Vec<&'static str>)
    ensures
        r@.map_values(|n: &str| n@) == seq![a@, b@],
{
    let r = vec![a, b];
    proof {
        assert(r@.map_values(|n: &str| n@) =~= seq![a@, b@]);
    }
    r
}

/// The tool list the server advertises.
pub fn list() -> (r: JsonValue)
    ensures
        r@ == tool_list_view(),
{
    let run = tool(
        "run_command",
        "Execute a shell command. Subject to a hard denylist for destructive operations.",
        obj_schema(
            p4(
                member_of("cmd", ty_desc("string", "Command to run (passed to /bin/sh -c)")),
                member_of("cwd", ty_desc("string", "Working directory (optional)")),
                member_of("env", string_map(Some("Extra environment variables (optional)"))),
                member_of("timeout_secs", ty_desc("integer", "Timeout in seconds (default 30, max 300)")),
            ),
            n1("cmd"),
        ),
    );
    let read = tool(
        "read_file",
        "Read a file from the filesystem.",
        obj_schema(
            p2(
                member_of("path", ty("string")),
                member_of("max_bytes", ty_desc("integer", "Maximum bytes to read (default 1MB)")),
            ),
            n1("path"),
        ),
    );
    let write = tool(
        "write_file",
        "Write or append to a file.",
        obj_schema(
            p3(
                member_of("path", ty("string")),
                member_of("content", ty("string")),
                member_of("append", ty_desc("boolean", "Append instead of overwrite (default false)")),
            ),
            n2("path", "content"),
        ),
    );
    let list_d = tool(
        "list_dir",
        "List directory contents.",
        obj_schema(
            p2(
                member_of("path", ty("string")),
                member_of("recursive", ty_desc("boolean", "Recurse into subdirectories (max 3 levels)")),
            ),
            n1("path"),
        ),
    );
    let create = tool(
        "create_dir",
        "Create a directory (and parents).",
        obj_schema(p1(member_of("path", ty("string"))), n1("path")),
    );
    let delete = tool(
        "delete_path",
        "Delete a file or directory.",
        obj_schema(
            p2(
                member_of("path", ty("string")),
                member_of("recursive", ty_desc("boolean", "Required true to delete a directory")),
            ),
            n1("path"),
        ),
    );
    let fetch = tool(
        "http_fetch",
        "Make an HTTP request.",
        obj_schema(
            p4(
                member_of("url", ty("string")),
                member_of("method", ty_desc("string", "HTTP method (default GET)")),
                member_of("headers", string_map(None)),
                member_of("body", ty("string")),
            ),
            n1("url"),
        ),
    );
    let none: Vec<(String, JsonValue)> = Vec::new();
    proof {
        assert(pairs_view(none@) =~= Seq::<(Seq<char>, JsonView)>::empty());
    }
    let cpu = tool("cpu_temp", "Read CPU temperature from thermal sensors.", open_schema(none));
    let disk = tool(
        "disk_usage",
        "Report disk usage for mounted filesystems.",
        open_schema(
            p1(
                member_of(
                    "path",
                    ty_desc("string", "Filter to filesystem containing this path (optional)"),
                ),
            ),
        ),
    );
    let none2: Vec<(String, JsonValue)> = Vec::new();
    proof {
        assert(pairs_view(none2@) =~= Seq::<(Seq<char>, JsonView)>::empty());
    }
    let mem = tool(
        "memory_info",
        "Report system memory usage from /proc/meminfo.",
        open_schema(none2),
    );
    let none3: Vec<(String, JsonValue)> = Vec::new();
    proof {
        assert(pairs_view(none3@) =~= Seq::<(Seq<char>, JsonView)>::empty());
    }
    let up = tool("uptime", "Report system uptime and load averages.", open_schema(none3));
    let ghost want = tool_list_view()->Array_0;
    proof {
        assert(run@ == want[0]);
        assert(read@ == want[1]);
        assert(write@ == want[2]);
        assert(list_d@ == want[3]);
        assert(create@ == want[4]);
        assert(delete@ == want[5]);
        assert(fetch@ == want[6]);
        assert(cpu@ == want[7]);
        assert(disk@ == want[8]);
        assert(mem@ == want[9]);
        assert(up@ == want[10]);
    }
    let all = vec![run, read, write, list_d, create, delete, fetch, cpu, disk, mem, up];
    let ghost av = crate::json::elems_view(all@);
    let r = JsonValue::array(all);
    proof {
        assert(av =~= want);
    }
    r
}

/// Every listed tool is one the server answers, and no name is listed
/// twice.
pub proof fn law_listed_tools_are_served()
    ensures
        listed_names().len() == 11,
        forall|i: int| 0 <= i < listed_names().len() ==> #[trigger] kind_named(listed_names()[i]) is Some,
        forall|i: int, j: int|
            0 <= i < j < listed_names().len() ==> #[trigger] kind_named(listed_names()[i]) != #[trigger] kind_named(
                listed_names()[j],
            ),
        forall|i: int|
            0 <= i < listed_names().len() ==> (#[trigger] tool_list_view()->Array_0[i]).at("name"@) == JsonView::Str(
                listed_names()[i],
            ),
{
    reveal_strlit("name");
    reveal_strlit("run_command");
    reveal_strlit("read_file");
    reveal_strlit("write_file");
    reveal_strlit("list_dir");
    reveal_strlit("create_dir");
    reveal_strlit("delete_path");
    reveal_strlit("http_fetch");
    reveal_strlit("cpu_temp");
    reveal_strlit("disk_usage");
    reveal_strlit("memory_info");
    reveal_strlit("uptime");
    let l = listed_names();
    let t = tool_list_view()->Array_0;
    let ks = seq![
        ToolKind::RunCommand,
        ToolKind::ReadFile,
        ToolKind::WriteFile,
        ToolKind::ListDir,
        ToolKind::CreateDir,
        ToolKind::DeletePath,
        ToolKind::HttpFetch,
        ToolKind::CpuTemp,
        ToolKind::DiskUsage,
        ToolKind::MemoryInfo,
        ToolKind::Uptime,
    ];
    assert forall|i: int| 0 <= i < l.len() implies #[trigger] kind_named(l[i]) == Some(ks[i]) by {
        reveal_strlit("run_command");
        reveal_strlit("read_file");
        reveal_strlit("write_file");
        reveal_strlit("list_dir");
        reveal_strlit("create_dir");
        reveal_strlit("delete_path");
        reveal_strlit("http_fetch");
        reveal_strlit("cpu_temp");
        reveal_strlit("disk_usage");
        reveal_strlit("memory_info");
        reveal_strlit("uptime");
        if i == 0 {
        } else if i == 1 {
            assert("read_file"@.len() != "run_command"@.len());
        } else if i == 2 {
            assert("write_file"@.len() != "run_command"@.len());
            assert("write_file"@.len() != "read_file"@.len());
        } else if i == 3 {
            assert("list_dir"@.len() != "run_command"@.len());
            assert("list_dir"@.len() != "read_file"@.len());
            assert("list_dir"@.len() != "write_file"@.len());
        } else if i == 4 {
            assert("create_dir"@.len() != "run_command"@.len());
            assert("create_dir"@.len() != "read_file"@.len());
            assert("create_dir"@[0] != "write_file"@[0]);
            assert("create_dir"@.len() != "list_dir"@.len());
        } else if i == 5 {
            assert("delete_path"@[0] != "run_command"@[0]);
            assert("delete_path"@.len() != "read_file"@.len());
            assert("delete_path"@.len() != "write_file"@.len());
            assert("delete_path"@.len() != "list_dir"@.len());
            assert("delete_path"@.len() != "create_dir"@.len());
        } else if i == 6 {
            assert("http_fetch"@.len() != "run_command"@.len());
            assert("http_fetch"@.len() != "read_file"@.len());
            assert("http_fetch"@[0] != "write_file"@[0]);
            assert("http_fetch"@.len() != "list_dir"@.len());
            assert("http_fetch"@[0] != "create_dir"@[0]);
            assert("http_fetch"@.len() != "delete_path"@.len());
        } else if i == 7 {
            assert("cpu_temp"@.len() != "run_command"@.len());
            assert("cpu_temp"@.len() != "read_file"@.len());
            assert("cpu_temp"@.len() != "write_file"@.len());
            assert("cpu_temp"@[0] != "list_dir"@[0]);
            assert("cpu_temp"@.len() != "create_dir"@.len());
            assert("cpu_temp"@.len() != "delete_path"@.len());
            assert("cpu_temp"@.len() != "http_fetch"@.len());
        } else if i == 8 {
            assert("disk_usage"@.len() != "run_command"@.len());
            assert("disk_usage"@.len() != "read_file"@.len());
            assert("disk_usage"@[0] != "write_file"@[0]);
            assert("disk_usage"@.len() != "list_dir"@.len());
            assert("disk_usage"@[0] != "create_dir"@[0]);
            assert("disk_usage"@.len() != "delete_path"@.len());
            assert("disk_usage"@[0] != "http_fetch"@[0]);
            assert("disk_usage"@.len() != "cpu_temp"@.len());
        } else if i == 9 {
            assert("memory_info"@[0] != "run_command"@[0]);
            assert("memory_info"@.len() != "read_file"@.len());
            assert("memory_info"@.len() != "write_file"@.len());
            assert("memory_info"@.len() != "list_dir"@.len());
            assert("memory_info"@.len() != "create_dir"@.len());
            assert("memory_info"@[0] != "delete_path"@[0]);
            assert("memory_info"@.len() != "http_fetch"@.len());
            assert("memory_info"@.len() != "cpu_temp"@.len());
            assert("memory_info"@.len() != "disk_usage"@.len());
        } else {
            assert(i == 10);
            assert("uptime"@.len() != "run_command"@.len());
            assert("uptime"@.len() != "read_file"@.len());
            assert("uptime"@.len() != "write_file"@.len());
            assert("uptime"@.len() != "list_dir"@.len());
            assert("uptime"@.len() != "create_dir"@.len());
            assert("uptime"@.len() != "delete_path"@.len());
            assert("uptime"@.len() != "http_fetch"@.len());
            assert("uptime"@.len() != "cpu_temp"@.len());
            assert("uptime"@.len() != "disk_usage"@.len());
            assert("uptime"@.len() != "memory_info"@.len());
        }
    }
    assert forall|i: int| 0 <= i < l.len() implies #[trigger] kind_named(l[i]) is Some by {
        assert(kind_named(l[i]) == Some(ks[i]));
    }
    assert forall|i: int, j: int|
        0 <= i < j < l.len() implies #[trigger] kind_named(l[i]) != #[trigger] kind_named(l[j]) by {
        assert(kind_named(l[i]) == Some(ks[i]));
        assert(kind_named(l[j]) == Some(ks[j]));
    }
    assert forall|i: int| 0 <= i < l.len() implies (#[trigger] t[i]).at("name"@) == JsonView::Str(l[i]) by {}
}

/// The environment a `run_command` call sets is exactly the string-valued
/// members of its `env` object: every such member is set, nothing else is,
/// and there are as many entries as string-valued members.
pub proof fn law_env_is_the_string_members(fields: Seq<(Seq<char>, JsonView)>)
    ensures
        forall|k: Seq<char>, v: Seq<char>|
            #[trigger] fields.contains((k, JsonView::Str(v))) ==> env_of(JsonView::Object(fields)).contains(
                (k, v),
            ),
        forall|k: Seq<char>, v: Seq<char>|
            #[trigger] env_of(JsonView::Object(fields)).contains((k, v)) ==> fields.contains(
                (k, JsonView::Str(v)),
            ),
        env_of(JsonView::Object(fields)).len() == fields.filter(
            |f: (Seq<char>, JsonView)| f.1 is Str,
        ).len(),
    decreases fields.len(),
{
    let p = |f: (Seq<char>, JsonView)| f.1 is Str;
    if fields.len() == 0 {
        assert(fields.filter(p) =~= Seq::<(Seq<char>, JsonView)>::empty()) by {
            reveal(Seq::filter);
        }
    } else {
        let pre = fields.drop_last();
        let last = fields.last();
        law_env_is_the_string_members(pre);
        let rest = string_members(pre);
        assert(fields =~= pre.push(last));
        pre.lemma_filter_push(last, p);
        assert forall|k: Seq<char>, v: Seq<char>|
            #[trigger] fields.contains((k, JsonView::Str(v))) implies env_of(JsonView::Object(fields)).contains(
            (k, v),
        ) by {
            let i = choose|i: int| 0 <= i < fields.len() && fields[i] == (k, JsonView::Str(v));
            if i == fields.len() - 1 {
                let e = env_of(JsonView::Object(fields));
                assert(e == rest.push((k, v)));
                assert(e[e.len() - 1] == (k, v));
            } else {
                assert(pre[i] == fields[i]);
                assert(pre.contains((k, JsonView::Str(v))));
                let e = env_of(JsonView::Object(fields));
                let j = choose|j: int| 0 <= j < rest.len() && rest[j] == (k, v);
                match last.1 {
                    JsonView::Str(s2) => {
                        assert(e == rest.push((last.0, s2)));
                        assert(e[j] == (k, v));
                    },
                    _ => {},
                }
            }
        }
        assert forall|k: Seq<char>, v: Seq<char>|
            #[trigger] env_of(JsonView::Object(fields)).contains((k, v)) implies fields.contains(
            (k, JsonView::Str(v)),
        ) by {
            let e = env_of(JsonView::Object(fields));
            let j = choose|j: int| 0 <= j < e.len() && e[j] == (k, v);
            match last.1 {
                JsonView::Str(s2) => {
                    assert(e == rest.push((last.0, s2)));
                    if j == rest.len() {
                        assert(fields[fields.len() - 1] == (k, JsonView::Str(v)));
                    } else {
                        assert(rest[j] == (k, v));
                        assert(rest.contains((k, v)));
                        let i = choose|i: int| 0 <= i < pre.len() && pre[i] == (k, JsonView::Str(v));
                        assert(fields[i] == pre[i]);
                    }
                },
                _ => {
                    assert(rest[j] == (k, v));
                    assert(rest.contains((k, v)));
                    let i = choose|i: int| 0 <= i < pre.len() && pre[i] == (k, JsonView::Str(v));
                    assert(fields[i] == pre[i]);
                },
            }
        }
    }
}

/// A recursive forced removal of a system directory is refused as such:
/// for `d` among /usr, /bin, /lib, /sbin, /boot, /etc/passwd and
/// /etc/shadow, a command whose trimmed text starts with `rm -rf ` + `d`
/// is refused with "destruction of system directories is blocked" —
/// unless an earlier rule refuses it first (it also runs `wipefs`, or
/// names `/` itself, or is a `--no-preserve-root` removal of the root).
pub proof fn law_system_directories_refused(cmd: Seq<char>, d: Seq<char>)
    requires
        d == "/usr"@ || d == "/bin"@ || d == "/lib"@ || d == "/sbin"@ || d == "/boot"@ || d
            == "/etc/passwd"@ || d == "/etc/shadow"@,
        has_prefix(trimmed(cmd), "rm -rf "@ + d),
        !has_infix(trimmed(cmd), "wipefs"@),
        !has_suffix(trimmed(cmd), " /"@),
        !has_infix(trimmed(cmd), " / "@),
        !has_infix(lowercase(trimmed(cmd)), "--no-preserve-root"@),
    ensures
        command_refusal(cmd) == Some("destruction of system directories is blocked"@),
{
    let t = trimmed(cmd);
    let l = lowercase(t);
    reveal_strlit("rm -rf ");
    reveal_strlit("/usr");
    reveal_strlit("/bin");
    reveal_strlit("/lib");
    reveal_strlit("/sbin");
    reveal_strlit("/boot");
    reveal_strlit("/etc/passwd");
    reveal_strlit("/etc/shadow");
    reveal_strlit("rm -rf /usr");
    reveal_strlit("rm -rf /bin");
    reveal_strlit("rm -rf /lib");
    reveal_strlit("rm -rf /sbin");
    reveal_strlit("rm -rf /boot");
    reveal_strlit("rm -rf /etc/passwd");
    reveal_strlit("rm -rf /etc/shadow");
    reveal_strlit("mkfs");
    reveal_strlit("dd");
    reveal_strlit("fdisk");
    reveal_strlit("parted");
    reveal_strlit("gdisk");
    reveal_strlit("rm");
    reveal_strlit("-r");
    let p = "rm -rf "@ + d;
    assert(t.subrange(0, p.len() as int) == p);
    assert(t[0] == 'r') by {
        assert(t.subrange(0, p.len() as int)[0] == p[0]);
    }
    assert(!has_prefix(t, "mkfs"@)) by {
        if has_prefix(t, "mkfs"@) {
            assert(t.subrange(0, 4)[0] == "mkfs"@[0]);
        }
    }
    assert(!has_prefix(t, "dd"@)) by {
        if has_prefix(t, "dd"@) {
            assert(t.subrange(0, 2)[0] == "dd"@[0]);
        }
    }
    assert(!has_prefix(t, "fdisk"@)) by {
        if has_prefix(t, "fdisk"@) {
            assert(t.subrange(0, 5)[0] == "fdisk"@[0]);
        }
    }
    assert(!has_prefix(t, "parted"@)) by {
        if has_prefix(t, "parted"@) {
            assert(t.subrange(0, 6)[0] == "parted"@[0]);
        }
    }
    assert(!has_prefix(t, "gdisk"@)) by {
        if has_prefix(t, "gdisk"@) {
            assert(t.subrange(0, 5)[0] == "gdisk"@[0]);
        }
    }
    assert(!rm_root(t, l));
    assert(occurs_at(t, p, 0));
    assert(has_infix(t, p));
    assert(rm_system(t)) by {
        if d == "/usr"@ {
            assert(p =~= "rm -rf /usr"@);
        } else if d == "/bin"@ {
            assert(p =~= "rm -rf /bin"@);
        } else if d == "/lib"@ {
            assert(p =~= "rm -rf /lib"@);
        } else if d == "/sbin"@ {
            assert(p =~= "rm -rf /sbin"@);
        } else if d == "/boot"@ {
            assert(p =~= "rm -rf /boot"@);
        } else if d == "/etc/passwd"@ {
            assert(p =~= "rm -rf /etc/passwd"@);
        } else {
            assert(p =~= "rm -rf /etc/shadow"@);
        }
    }
}

} // verus!
