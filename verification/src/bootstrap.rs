//! Bootstrapping a new mesh node over ssh, as a sequence of decisions: the
//! connectivity check, the "already a node" check, fetching the repository
//! (with a time limit), and starting the installer in the background. The
//! caller runs each remote command and reports how it went; each step says
//! what to run next or how the `bootstrap_node` call is answered.
use vstd::prelude::*;
use crate::text::{trimmed, trim, to_chars, from_chars, str_eq, strings_view};

verus! {

/// What `str`'s `Debug` formatting writes for a string: the string in
/// double quotes, with quotes, backslashes and control or non-printable
/// characters escaped.
pub uninterp spec fn quoted(s: Seq<char>) -> Seq<char>;

/// `<str as Debug>::fmt` from std, through `format!("{:?}", ..)`.
#[verifier::external_body]
fn debug_quoted(s: &str) -> (r: String)
    ensures
        r@ == quoted(s@),
{
    format!("{:?}", s)
}

/// The node and login a bootstrap uses, and where the installer comes from.
#[derive(Debug)]
pub struct BootstrapParams {
    pub target_ip: String,
    pub ssh_password: String,
    pub ssh_user: String,
    pub api_key: String,
    pub repo_url: String,
}

/// The remote command whose outcome a step reads.
#[derive(Clone, Copy, Debug, PartialEq, Eq, Structural)]
pub enum BootstrapStage {
    /// `echo OK`: can we log in at all.
    Connect,
    /// Is the daemon already running there.
    CheckActive,
    /// Install git and fetch the repository.
    Prepare,
    /// Start the installer in the background.
    Launch,
}

/// How a remote command went.
#[derive(Debug)]
pub enum StepOutcome {
    /// It could not be run; the error's text.
    NotRun(String),
    /// It ran: whether it exited successfully, and its output.
    Exited { success: bool, stdout: String, stderr: String },
    /// It outran its time limit.
    TimedOut,
}

/// What to do next.
#[derive(Debug)]
pub enum BootstrapAction {
    /// Run `sshpass` with these arguments (for at most `timeout_secs`
    /// seconds when given), then report its outcome for `stage`.
    Run { stage: BootstrapStage, args: Vec<String>, timeout_secs: Option<u64> },
    /// Answer the call.
    Finish { ok: bool, message: String },
}

/// Model of the parameters: target, password, user, API key, repository.
pub struct ParamsView {
    pub ip: Seq<char>,
    pub pw: Seq<char>,
    pub user: Seq<char>,
    pub key: Seq<char>,
    pub repo: Seq<char>,
}

/// Model of an outcome.
pub enum OutcomeView {
    NotRun(Seq<char>),
    Exited(bool, Seq<char>, Seq<char>),
    TimedOut,
}

/// Model of an action.
pub enum ActionView {
    Run(BootstrapStage, Seq<Seq<char>>, Option<u64>),
    Finish(bool, Seq<char>),
}

impl View for BootstrapParams {
    type V = ParamsView;

    open spec fn view(&self) -> ParamsView {
        ParamsView {
            ip: self.target_ip@,
            pw: self.ssh_password@,
            user: self.ssh_user@,
            key: self.api_key@,
            repo: self.repo_url@,
        }
    }
}

impl View for StepOutcome {
    type V = OutcomeView;

    open spec fn view(&self) -> OutcomeView {
        match self {
            StepOutcome::NotRun(e) => OutcomeView::NotRun(e@),
            StepOutcome::Exited { success, stdout, stderr } => OutcomeView::Exited(*success, stdout@, stderr@),
            StepOutcome::TimedOut => OutcomeView::TimedOut,
        }
    }
}

impl View for BootstrapAction {
    type V = ActionView;

    open spec fn view(&self) -> ActionView {
        match self {
            BootstrapAction::Run { stage, args, timeout_secs } => ActionView::Run(
                *stage,
                strings_view(args@),
                *timeout_secs,
            ),
            BootstrapAction::Finish { ok, message } => ActionView::Finish(*ok, message@),
        }
    }
}

/// `user@ip`.
pub open spec fn login(p: ParamsView) -> Seq<char> {
    p.user + "@"@ + p.ip
}

/// The `sshpass` arguments that run `remote` on the node.
pub open spec fn ssh_args(p: ParamsView, remote: Seq<char>) -> Seq<Seq<char>> {
    seq![
        "-p"@ + p.pw,
        "ssh"@,
        "-o"@,
        "StrictHostKeyChecking=no"@,
        "-o"@,
        "ConnectTimeout=5"@,
        login(p),
        remote,
    ]
}

/// `cmd` run as root on the node, the password fed to `sudo`.
pub open spec fn as_root(p: ParamsView, cmd: Seq<char>) -> Seq<char> {
    "echo '"@ + p.pw + "' | sudo -S bash -c "@ + quoted(cmd)
}

/// Installs git and clones the repository (or updates an existing clone).
pub open spec fn prepare_cmd(p: ParamsView) -> Seq<char> {
    "apt-get install -y -q git 2>/dev/null; git clone "@ + p.repo + " /home/"@ + p.user
        + "/ApexOS 2>/dev/null || git -C /home/"@ + p.user + "/ApexOS pull"@
}

/// Exports the API key for the installer, when one is given.
pub open spec fn key_export(p: ParamsView) -> Seq<char> {
    if p.key.len() == 0 {
        Seq::empty()
    } else {
        "export ANTHROPIC_API_KEY="@ + quoted(p.key) + "; "@
    }
}

/// Starts the installer in the background and prints its process id.
pub open spec fn install_cmd(p: ParamsView) -> Seq<char> {
    "cd /home/"@ + p.user + "/ApexOS && "@ + key_export(p)
        + "nohup bash install.sh > /tmp/apex-install.log 2>&1 &echo $!"@
}

/// The answer once the installer is started, with its process id.
pub open spec fn started_message(p: ParamsView, pid: Seq<char>) -> Seq<char> {
    "Bootstrap of "@ + login(p) + " started (PID "@ + pid
        + "). install.sh is running in background — takes 15-20 min. Monitor: ssh "@ + login(p)
        + " tail -f /tmp/apex-install.log. The node will appear in the mesh automatically once Avahi starts."@
}

/// The remote command that checks whether the daemon runs there.
pub open spec fn check_active_cmd() -> Seq<char> {
    "systemctl is-active agentd 2>/dev/null || echo inactive"@
}

/// The first step: check that the node can be reached and logged into.
pub open spec fn bootstrap_first(p: ParamsView) -> ActionView {
    ActionView::Run(BootstrapStage::Connect, ssh_args(p, "echo OK"@), None)
}

/// The step after `stage` went as `o`.
pub open spec fn bootstrap_next(p: ParamsView, stage: BootstrapStage, o: OutcomeView) -> ActionView {
    match stage {
        BootstrapStage::Connect => match o {
            OutcomeView::NotRun(e) => ActionView::Finish(false, "SSH to "@ + p.ip + " failed: "@ + e),
            OutcomeView::Exited(false, _, err) => ActionView::Finish(
                false,
                "SSH auth failed for "@ + login(p) + ": "@ + err,
            ),
            _ => ActionView::Run(BootstrapStage::CheckActive, ssh_args(p, check_active_cmd()), None),
        },
        BootstrapStage::CheckActive => match o {
            OutcomeView::Exited(_, out, _) => if trimmed(out) == "active"@ {
                ActionView::Finish(
                    true,
                    p.ip + " is already running agentd. Register it manually with POST /api/mesh/peers."@,
                )
            } else {
                ActionView::Run(BootstrapStage::Prepare, ssh_args(p, as_root(p, prepare_cmd(p))), Some(60))
            },
            _ => ActionView::Run(BootstrapStage::Prepare, ssh_args(p, as_root(p, prepare_cmd(p))), Some(60)),
        },
        BootstrapStage::Prepare => match o {
            OutcomeView::TimedOut => ActionView::Finish(false, "bootstrap_node: git clone timed out"@),
            _ => ActionView::Run(BootstrapStage::Launch, ssh_args(p, as_root(p, install_cmd(p))), None),
        },
        BootstrapStage::Launch => match o {
            OutcomeView::Exited(_, out, _) => ActionView::Finish(true, started_message(p, trimmed(out))),
            _ => ActionView::Finish(true, started_message(p, Seq::empty())),
        },
    }
}

fn cat(a: &str, b: &str) -> (r: String)
    ensures
        r@ == a@ + b@,
{
    String::from_str(a).concat(b)
}

fn login_of(p: &BootstrapParams) -> (r: String)
    ensures
        r@ == login(p@),
{
    cat(cat(p.ssh_user.as_str(), "@").as_str(), p.target_ip.as_str())
}

fn ssh_args_of(p: &BootstrapParams, remote: String) -> (r: Vec<String>)
    ensures
        strings_view(r@) == ssh_args(p@, remote@),
{
    let mut v: Vec<String> = Vec::new();
    v.push(cat("-p", p.ssh_password.as_str()));
    v.push(String::from_str("ssh"));
    v.push(String::from_str("-o"));
    v.push(String::from_str("StrictHostKeyChecking=no"));
    v.push(String::from_str("-o"));
    v.push(String::from_str("ConnectTimeout=5"));
    v.push(login_of(p));
    v.push(remote);
    proof {
        assert(strings_view(v@) =~= ssh_args(p@, remote@));
    }
    v
}

fn as_root_of(p: &BootstrapParams, cmd: &str) -> (r: String)
    ensures
        r@ == as_root(p@, cmd@),
{
    let q = debug_quoted(cmd);
    cat(cat(cat("echo '", p.ssh_password.as_str()).as_str(), "' | sudo -S bash -c ").as_str(), q.as_str())
}

fn prepare_cmd_of(p: &BootstrapParams) -> (r: String)
    ensures
        r@ == prepare_cmd(p@),
{
    let a = cat("apt-get install -y -q git 2>/dev/null; git clone ", p.repo_url.as_str());
    let b = cat(cat(a.as_str(), " /home/").as_str(), p.ssh_user.as_str());
    let c = cat(cat(b.as_str(), "/ApexOS 2>/dev/null || git -C /home/").as_str(), p.ssh_user.as_str());
    cat(c.as_str(), "/ApexOS pull")
}

fn install_cmd_of(p: &BootstrapParams) -> (r: String)
    ensures
        r@ == install_cmd(p@),
{
    let export = if to_chars(p.api_key.as_str()).len() == 0 {
        String::new()
    } else {
        let q = debug_quoted(p.api_key.as_str());
        cat(cat("export ANTHROPIC_API_KEY=", q.as_str()).as_str(), "; ")
    };
    proof {
        assert(p.api_key@.len() == 0 ==> export@ == Seq::<char>::empty());
    }
    let a = cat(cat("cd /home/", p.ssh_user.as_str()).as_str(), "/ApexOS && ");
    cat(cat(a.as_str(), export.as_str()).as_str(), "nohup bash install.sh > /tmp/apex-install.log 2>&1 &echo $!")
}

fn started_message_of(p: &BootstrapParams, pid: &str) -> (r: String)
    ensures
        r@ == started_message(p@, pid@),
{
    let who = login_of(p);
    let a = cat(cat("Bootstrap of ", who.as_str()).as_str(), " started (PID ");
    let b = cat(
        cat(a.as_str(), pid).as_str(),
        "). install.sh is running in background — takes 15-20 min. Monitor: ssh ",
    );
    cat(
        cat(b.as_str(), who.as_str()).as_str(),
        " tail -f /tmp/apex-install.log. The node will appear in the mesh automatically once Avahi starts.",
    )
}

fn trimmed_string(s: &str) -> (r: String)
    ensures
        r@ == trimmed(s@),
{
    from_chars(&trim(&to_chars(s)))
}

/// The first step of a bootstrap: log in and run `echo OK`.
pub fn bootstrap_start(p: &BootstrapParams) -> (r: BootstrapAction)
    ensures
        r@ == bootstrap_first(p@),
{
    BootstrapAction::Run {
        stage: BootstrapStage::Connect,
        args: ssh_args_of(p, String::from_str("echo OK")),
        timeout_secs: None,
    }
}

/// The next step once `stage` went as `outcome`: a failed login ends the
/// call with the reason; a node that already runs the daemon is reported
/// as such; a repository fetch that outran its minute ends the call; and
/// once the installer is started the call is answered with its process id
/// (empty when it could not be read). Only the fetch runs with a time limit,
/// so only its outcome can be a timeout at the login check.
pub fn bootstrap_step(p: &BootstrapParams, stage: BootstrapStage, outcome: StepOutcome) -> (r:
    BootstrapAction)
    requires
        stage == BootstrapStage::Connect ==> !(outcome is TimedOut),
    ensures
        r@ == bootstrap_next(p@, stage, outcome@),
{
    match stage {
        BootstrapStage::Connect => match outcome {
            StepOutcome::NotRun(e) => BootstrapAction::Finish {
                ok: false,
                message: cat(cat(cat("SSH to ", p.target_ip.as_str()).as_str(), " failed: ").as_str(), e.as_str()),
            },
            StepOutcome::Exited { success, stdout: _, stderr } => {
                if !success {
                    let who = login_of(p);
                    BootstrapAction::Finish {
                        ok: false,
                        message: cat(cat(cat("SSH auth failed for ", who.as_str()).as_str(), ": ").as_str(), stderr.as_str()),
                    }
                } else {
                    BootstrapAction::Run {
                        stage: BootstrapStage::CheckActive,
                        args: ssh_args_of(p, String::from_str("systemctl is-active agentd 2>/dev/null || echo inactive")),
                        timeout_secs: None,
                    }
                }
            },
            StepOutcome::TimedOut => BootstrapAction::Run {
                stage: BootstrapStage::CheckActive,
                args: ssh_args_of(p, String::from_str("systemctl is-active agentd 2>/dev/null || echo inactive")),
                timeout_secs: None,
            },
        },
        BootstrapStage::CheckActive => {
            let active = match &outcome {
                StepOutcome::Exited { success: _, stdout, stderr: _ } => {
                    let t = trimmed_string(stdout.as_str());
                    str_eq(t.as_str(), "active")
                },
                _ => false,
            };
            if active {
                BootstrapAction::Finish {
                    ok: true,
                    message: cat(
                        p.target_ip.as_str(),
                        " is already running agentd. Register it manually with POST /api/mesh/peers.",
                    ),
                }
            } else {
                let cmd = prepare_cmd_of(p);
                BootstrapAction::Run {
                    stage: BootstrapStage::Prepare,
                    args: ssh_args_of(p, as_root_of(p, cmd.as_str())),
                    timeout_secs: Some(60),
                }
            }
        },
        BootstrapStage::Prepare => match outcome {
            StepOutcome::TimedOut => BootstrapAction::Finish {
                ok: false,
                message: String::from_str("bootstrap_node: git clone timed out"),
            },
            _ => {
                let cmd = install_cmd_of(p);
                BootstrapAction::Run {
                    stage: BootstrapStage::Launch,
                    args: ssh_args_of(p, as_root_of(p, cmd.as_str())),
                    timeout_secs: None,
                }
            },
        },
        BootstrapStage::Launch => {
            let pid = match &outcome {
                StepOutcome::Exited { success: _, stdout, stderr: _ } => trimmed_string(stdout.as_str()),
                _ => String::new(),
            };
            BootstrapAction::Finish { ok: true, message: started_message_of(p, pid.as_str()) }
        },
    }
}

} // verus!
