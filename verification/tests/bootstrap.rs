use apexos::bootstrap::{
    bootstrap_start, bootstrap_step, BootstrapAction, BootstrapParams, BootstrapStage, StepOutcome,
};

fn params(key: &str) -> BootstrapParams {
    BootstrapParams {
        target_ip: "10.0.0.2".into(),
        ssh_password: "pw".into(),
        ssh_user: "pi".into(),
        api_key: key.into(),
        repo_url: "https://example.org/r.git".into(),
    }
}

fn finish(a: BootstrapAction) -> (bool, String) {
    match a {
        BootstrapAction::Finish { ok, message } => (ok, message),
        other => panic!("expected an answer, got {:?}", other),
    }
}

fn run(a: BootstrapAction) -> (BootstrapStage, Vec<String>, Option<u64>) {
    match a {
        BootstrapAction::Run { stage, args, timeout_secs } => (stage, args, timeout_secs),
        other => panic!("expected a command, got {:?}", other),
    }
}

fn exited(success: bool, stdout: &str, stderr: &str) -> StepOutcome {
    StepOutcome::Exited { success, stdout: stdout.into(), stderr: stderr.into() }
}

#[test]
fn login_check_comes_first() {
    let (stage, args, t) = run(bootstrap_start(&params("")));
    assert_eq!(stage, BootstrapStage::Connect);
    assert_eq!(t, None);
    assert_eq!(
        args,
        vec!["-ppw", "ssh", "-o", "StrictHostKeyChecking=no", "-o", "ConnectTimeout=5", "pi@10.0.0.2", "echo OK"]
    );
}

#[test]
fn login_failures_end_the_call() {
    let p = params("");
    assert_eq!(
        finish(bootstrap_step(&p, BootstrapStage::Connect, StepOutcome::NotRun("no sshpass".into()))),
        (false, "SSH to 10.0.0.2 failed: no sshpass".to_string())
    );
    assert_eq!(
        finish(bootstrap_step(&p, BootstrapStage::Connect, exited(false, "", "denied"))),
        (false, "SSH auth failed for pi@10.0.0.2: denied".to_string())
    );
    let (stage, args, _) = run(bootstrap_step(&p, BootstrapStage::Connect, exited(true, "OK\n", "")));
    assert_eq!(stage, BootstrapStage::CheckActive);
    assert_eq!(args[7], "systemctl is-active agentd 2>/dev/null || echo inactive");
}

#[test]
fn a_running_node_is_reported() {
    let p = params("");
    assert_eq!(
        finish(bootstrap_step(&p, BootstrapStage::CheckActive, exited(true, " active\n", ""))),
        (true, "10.0.0.2 is already running agentd. Register it manually with POST /api/mesh/peers.".to_string())
    );
}

#[test]
fn fetch_then_install() {
    let p = params("sk-1");
    let (stage, args, t) = run(bootstrap_step(&p, BootstrapStage::CheckActive, exited(true, "inactive\n", "")));
    assert_eq!(stage, BootstrapStage::Prepare);
    assert_eq!(t, Some(60));
    let prep = "apt-get install -y -q git 2>/dev/null; git clone https://example.org/r.git /home/pi/ApexOS 2>/dev/null || git -C /home/pi/ApexOS pull";
    assert_eq!(args[7], format!("echo 'pw' | sudo -S bash -c {:?}", prep));
    assert_eq!(
        finish(bootstrap_step(&p, BootstrapStage::Prepare, StepOutcome::TimedOut)),
        (false, "bootstrap_node: git clone timed out".to_string())
    );
    let (stage, args, t) = run(bootstrap_step(&p, BootstrapStage::Prepare, exited(true, "", "")));
    assert_eq!(stage, BootstrapStage::Launch);
    assert_eq!(t, None);
    let install = format!(
        "cd /home/pi/ApexOS && export ANTHROPIC_API_KEY={:?}; nohup bash install.sh > /tmp/apex-install.log 2>&1 &echo $!",
        "sk-1"
    );
    assert_eq!(args[7], format!("echo 'pw' | sudo -S bash -c {:?}", install));
    let (ok, msg) = finish(bootstrap_step(&p, BootstrapStage::Launch, exited(true, "4242\n", "")));
    assert!(ok);
    assert_eq!(
        msg,
        "Bootstrap of pi@10.0.0.2 started (PID 4242). install.sh is running in background — takes 15-20 min. Monitor: ssh pi@10.0.0.2 tail -f /tmp/apex-install.log. The node will appear in the mesh automatically once Avahi starts."
    );
    let (_, msg) = finish(bootstrap_step(&p, BootstrapStage::Launch, StepOutcome::NotRun("x".into())));
    assert!(msg.contains("(PID )"));
}

#[test]
fn no_key_no_export() {
    let p = params("");
    let (_, args, _) = run(bootstrap_step(&p, BootstrapStage::Prepare, exited(true, "", "")));
    let install = "cd /home/pi/ApexOS && nohup bash install.sh > /tmp/apex-install.log 2>&1 &echo $!";
    assert_eq!(args[7], format!("echo 'pw' | sudo -S bash -c {:?}", install));
}
