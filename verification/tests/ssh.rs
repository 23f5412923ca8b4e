use hardpass::error::Error;
use hardpass::ssh::common_ssh_args;
use hardpass::ssh::exec;
use hardpass::ssh::exec_args;
use hardpass::ssh::exec_checked;
use hardpass::ssh::keygen_args;
use hardpass::ssh::keygen_outcome;
use hardpass::ssh::needs_ssh_key;
use hardpass::ssh::open_session;
use hardpass::ssh::probe_args;
use hardpass::ssh::public_key;
use hardpass::ssh::public_key_path;
use hardpass::ssh::render_remote_command;
use hardpass::ssh::session_args;
use hardpass::ssh::shell_quote;
use hardpass::ssh::ssh_status;
use hardpass::ssh::wait_for_ssh;
use hardpass::ssh::WaitStep;
use hardpass::state::SshConfig;
use hardpass::ExecOutput;

fn config() -> SshConfig {
    SshConfig {
        user: "ubuntu".to_string(),
        host: "127.0.0.1".to_string(),
        port: 2222,
        identity_file: "/k/id".to_string(),
    }
}

fn strings(list: &[&str]) -> Vec<String> {
    list.iter().map(|text| text.to_string()).collect()
}

fn output(success: bool) -> ExecOutput {
    ExecOutput {
        success,
        code: Some(3),
        status: "exit status: 3".to_string(),
        stdout: "out".to_string(),
        stderr: "err".to_string(),
    }
}

#[test]
fn shell_quote_escapes_single_quotes() {
    assert_eq!(shell_quote("it's ready"), r#"'it'"'"'s ready'"#);
}

#[test]
fn render_remote_command_preserves_shell_script_argument() {
    let command = vec![
        "sh".to_string(),
        "-lc".to_string(),
        "sudo apt-get update".to_string(),
    ];
    assert_eq!(
        render_remote_command(&command),
        "'sh' '-lc' 'sudo apt-get update'"
    );
}

#[test]
fn render_remote_command_preserves_empty_arguments() {
    let command = vec!["printf".to_string(), "".to_string(), "done".to_string()];
    assert_eq!(render_remote_command(&command), "'printf' '' 'done'");
}

#[test]
fn empty_command_is_rendered_as_nothing() {
    assert_eq!(render_remote_command(&[]), "");
}

#[test]
fn live_characters_stay_within_single_quotes() {
    assert_eq!(shell_quote("$HOME `id` \\ \"x\""), "'$HOME `id` \\ \"x\"'");
}

#[test]
fn batch_mode_adds_its_option() {
    let plain = strings(&[
        "-i",
        "/k/id",
        "-p",
        "2222",
        "-o",
        "StrictHostKeyChecking=no",
        "-o",
        "UserKnownHostsFile=/dev/null",
        "-o",
        "IdentitiesOnly=yes",
        "-o",
        "LogLevel=ERROR",
    ]);
    assert_eq!(common_ssh_args(&config(), false), plain);
    let mut batch = plain;
    batch.extend(strings(&["-o", "BatchMode=yes"]));
    assert_eq!(common_ssh_args(&config(), true), batch);
}

#[test]
fn calls_end_with_target_and_command() {
    let mut session = common_ssh_args(&config(), false);
    session.extend(strings(&["-L", "1:2", "ubuntu@127.0.0.1"]));
    assert_eq!(session_args(&config(), &strings(&["-L", "1:2"])), session);

    let mut run = common_ssh_args(&config(), true);
    run.extend(strings(&["ubuntu@127.0.0.1", "'uname' '-m'"]));
    assert_eq!(exec_args(&config(), &strings(&["uname", "-m"])), run);

    let mut probe = common_ssh_args(&config(), true);
    probe.extend(strings(&["-o", "ConnectTimeout=2", "ubuntu@127.0.0.1", "true"]));
    assert_eq!(probe_args(&config()), probe);
}

#[test]
fn keys_are_made_where_one_half_is_missing() {
    assert!(!needs_ssh_key(true, true));
    assert!(needs_ssh_key(false, true));
    assert!(needs_ssh_key(true, false));
    assert_eq!(public_key_path("/k/id_ed25519"), "/k/id_ed25519.pub");
    assert_eq!(
        keygen_args("/k/id"),
        strings(&["-q", "-t", "ed25519", "-N", "", "-f", "/k/id", "-C", "hardpass"])
    );
    assert_eq!(public_key("  ssh-ed25519 AAAA x\n"), "ssh-ed25519 AAAA x");
}

#[test]
fn failures_are_reported() {
    assert!(keygen_outcome(true, "noise").is_ok());
    assert_eq!(
        keygen_outcome(false, " bad\n").expect_err("fails").to_string(),
        "ssh-keygen failed: bad"
    );
    assert!(ssh_status(true).is_ok());
    assert_eq!(
        ssh_status(false).expect_err("fails").to_string(),
        "ssh not ready yet"
    );
    assert!(open_session(true, "exit status: 0").is_ok());
    assert_eq!(
        open_session(false, "exit status: 255").expect_err("fails").to_string(),
        "ssh exited with status exit status: 255"
    );
    assert!(exec(&output(true)).is_ok());
    assert_eq!(
        exec(&output(false)).expect_err("fails").to_string(),
        "remote command exited with status exit status: 3"
    );
    assert_eq!(exec_checked(output(true)).expect("output"), output(true));
    assert_eq!(
        exec_checked(output(false)).expect_err("fails").to_string(),
        "remote command exited with status exit status: 3"
    );
}

#[test]
fn waiting_ends_with_an_answer_or_with_time() {
    let failure = || Some(Error::new("ssh not ready yet".to_string()));
    assert_eq!(wait_for_ssh(None, false), WaitStep::Ready);
    assert_eq!(wait_for_ssh(failure(), true), WaitStep::Retry(500));
    assert_eq!(
        wait_for_ssh(failure(), false),
        WaitStep::GiveUp(Error::new("ssh not ready yet".to_string()))
    );
}
