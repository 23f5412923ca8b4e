use hardpass::json;
use hardpass::qemu::accel_name;
use hardpass::qemu::build_launch_spec;
use hardpass::qemu::build_launch_spec_with_accel;
use hardpass::qemu::cpu_arg;
use hardpass::qemu::create_overlay_disk;
use hardpass::qemu::discover_aarch64_firmware;
use hardpass::qemu::ensure_firmware_vars;
use hardpass::qemu::firmware_candidates;
use hardpass::qemu::launch_accel_attempts;
use hardpass::qemu::launch_vm;
use hardpass::qemu::missing_kvm_error_message;
use hardpass::qemu::overlay_outcome;
use hardpass::qemu::qemu_user_network_arg;
use hardpass::qemu::resolve_accel;
use hardpass::qemu::resolve_accel_for_env;
use hardpass::qemu::run_launch_spec;
use hardpass::qemu::system_powerdown;
use hardpass::qemu::tcg_disabled_error_message;
use hardpass::qemu::HostEnv;
use hardpass::qemu::LaunchStep;
use hardpass::qemu::QmpAction;
use hardpass::qemu::QmpPhase;
use hardpass::qemu::QmpSession;
use hardpass::state::AccelMode;
use hardpass::state::CloudInitConfig;
use hardpass::state::GuestArch;
use hardpass::state::ImageConfig;
use hardpass::state::InstanceConfig;
use hardpass::state::InstancePaths;
use hardpass::state::PortForward;
use hardpass::state::SshConfig;

fn config(arch: GuestArch) -> InstanceConfig {
    InstanceConfig {
        name: "dev".into(),
        release: "24.04".into(),
        arch,
        accel: AccelMode::Tcg,
        cpus: 2,
        memory_mib: 2048,
        disk_gib: 16,
        timeout_secs: 60,
        ssh: SshConfig {
            user: "ubuntu".into(),
            host: "127.0.0.1".into(),
            port: 2222,
            identity_file: "/tmp/id_ed25519".into(),
        },
        forwards: vec![PortForward {
            host: 8080,
            guest: 8080,
        }],
        image: ImageConfig {
            release: "24.04".into(),
            arch,
            url: "https://example.invalid/ubuntu.img".into(),
            sha256_url: "https://example.invalid/SHA256SUMS".into(),
            filename: "ubuntu.img".into(),
            sha256: "abc".into(),
        },
        cloud_init: CloudInitConfig {
            user_data_sha256: "abc".into(),
            network_config_sha256: None,
        },
    }
}

fn host(os: &str, kvm: bool, files: &[&str]) -> HostEnv {
    HostEnv {
        os: os.to_string(),
        kvm,
        files: files.iter().map(|file| file.to_string()).collect(),
    }
}

fn aavmf() -> Vec<String> {
    vec![
        "/usr/share/AAVMF/AAVMF_CODE.fd".to_string(),
        "/usr/share/AAVMF/AAVMF_VARS.fd".to_string(),
    ]
}

#[test]
fn user_network_forwards_include_ssh_and_extras() {
    let arg = qemu_user_network_arg(
        2222,
        &[PortForward {
            host: 8080,
            guest: 8080,
        }],
    );
    assert!(arg.contains("hostfwd=tcp:127.0.0.1:2222-:22"));
    assert!(arg.contains("hostfwd=tcp:127.0.0.1:8080-:8080"));
    assert_eq!(
        arg,
        "user,id=net0,hostfwd=tcp:127.0.0.1:2222-:22,hostfwd=tcp:127.0.0.1:8080-:8080"
    );
}

#[test]
fn x86_launch_spec_contains_expected_args() {
    let paths = InstancePaths::new("/tmp/dev".to_string());
    let spec =
        build_launch_spec_with_accel(&config(GuestArch::Amd64), &paths, AccelMode::Kvm, &vec![])
            .expect("spec");
    let joined = spec.args.join(" ");
    assert!(joined.contains("q35,accel=kvm"));
    assert!(joined.contains("if=virtio,format=qcow2,file=/tmp/dev/disk.qcow2"));
}

#[test]
fn arm_launch_spec_contains_expected_args() {
    let files = aavmf();
    assert!(discover_aarch64_firmware(&files).is_ok());
    let paths = InstancePaths::new("/tmp/dev".to_string());
    let spec =
        build_launch_spec_with_accel(&config(GuestArch::Arm64), &paths, AccelMode::Kvm, &files)
            .expect("spec");
    let joined = spec.args.join(" ");
    assert!(joined.contains("virt,accel=kvm"));
    assert!(joined.contains("if=pflash,format=raw,unit=1,file=/tmp/dev/firmware.vars.fd"));
}

#[test]
fn auto_accel_has_single_attempt() {
    let env = host("linux", true, &[]);
    let attempts = launch_accel_attempts(AccelMode::Auto, &env).expect("attempts");
    assert_eq!(
        attempts,
        vec![resolve_accel(AccelMode::Auto, &env).expect("preferred accel")]
    );
}

#[test]
fn explicit_supported_accel_has_single_attempt() {
    assert_eq!(
        launch_accel_attempts(AccelMode::Hvf, &host("macos", false, &[])).expect("attempts"),
        vec![AccelMode::Hvf]
    );
    assert_eq!(
        launch_accel_attempts(AccelMode::Kvm, &host("linux", true, &[])).expect("attempts"),
        vec![AccelMode::Kvm]
    );
}

#[test]
fn explicit_kvm_requires_dev_kvm() {
    let err = resolve_accel_for_env(AccelMode::Kvm, "linux", false).expect_err("should fail");
    assert_eq!(err.to_string(), missing_kvm_error_message());
    assert!(err.to_string().contains("/dev/kvm"));
    assert!(err.to_string().contains("fall back to TCG"));
}

#[test]
fn auto_requires_kvm_on_linux_without_dev_kvm() {
    let err = resolve_accel_for_env(AccelMode::Auto, "linux", false).expect_err("should fail");
    assert_eq!(err.to_string(), missing_kvm_error_message());
}

#[test]
fn explicit_tcg_is_disabled() {
    let err = resolve_accel_for_env(AccelMode::Tcg, "linux", true).expect_err("should fail");
    assert_eq!(err.to_string(), tcg_disabled_error_message());
    assert!(err.to_string().contains("TCG acceleration is disabled"));
}

#[test]
fn accel_of_another_system_is_refused() {
    assert_eq!(
        resolve_accel_for_env(AccelMode::Hvf, "linux", true).expect_err("fails").to_string(),
        "acceleration mode hvf is not supported on this host"
    );
    assert_eq!(
        resolve_accel_for_env(AccelMode::Kvm, "macos", true).expect_err("fails").to_string(),
        "acceleration mode kvm is not supported on this host"
    );
    assert_eq!(
        resolve_accel_for_env(AccelMode::Auto, "windows", true).expect_err("fails").to_string(),
        "automatic acceleration is only supported on macOS (HVF) and Linux with /dev/kvm (KVM)"
    );
    assert_eq!(
        resolve_accel_for_env(AccelMode::Auto, "macos", false).expect("accel"),
        AccelMode::Hvf
    );
}

#[test]
fn names_of_accel_and_cpu() {
    assert_eq!(accel_name(AccelMode::Hvf), "hvf");
    assert_eq!(accel_name(AccelMode::Auto), "tcg");
    assert_eq!(cpu_arg(AccelMode::Tcg), "max");
    assert_eq!(cpu_arg(AccelMode::Kvm), "host");
}

#[test]
fn x86_arguments_are_exact() {
    let paths = InstancePaths::new("/vm".to_string());
    let mut asked = config(GuestArch::Amd64);
    asked.accel = AccelMode::Auto;
    let spec = build_launch_spec(&asked, &paths, &host("linux", true, &[])).expect("spec");
    assert_eq!(spec.program, "qemu-system-x86_64");
    assert_eq!(
        spec.args,
        vec![
            "-name",
            "dev",
            "-display",
            "none",
            "-daemonize",
            "-pidfile",
            "/vm/pid",
            "-monitor",
            "none",
            "-serial",
            "file:/vm/serial.log",
            "-qmp",
            "unix:/vm/qmp.sock,server=on,wait=off",
            "-smp",
            "2",
            "-m",
            "2048",
            "-netdev",
            "user,id=net0,hostfwd=tcp:127.0.0.1:2222-:22,hostfwd=tcp:127.0.0.1:8080-:8080",
            "-device",
            "virtio-net-pci,netdev=net0",
            "-device",
            "virtio-rng-pci",
            "-cpu",
            "host",
            "-machine",
            "q35,accel=kvm",
            "-drive",
            "if=virtio,format=qcow2,file=/vm/disk.qcow2",
            "-drive",
            "if=virtio,format=raw,readonly=on,file=/vm/seed.img",
        ]
    );
}

#[test]
fn arm_arguments_are_exact() {
    let paths = InstancePaths::new("/vm".to_string());
    let spec =
        build_launch_spec_with_accel(&config(GuestArch::Arm64), &paths, AccelMode::Hvf, &aavmf())
            .expect("spec");
    assert_eq!(spec.program, "qemu-system-aarch64");
    assert_eq!(
        spec.args[23..],
        vec![
            "-cpu",
            "host",
            "-machine",
            "virt,accel=hvf",
            "-drive",
            "if=pflash,format=raw,unit=0,readonly=on,file=/usr/share/AAVMF/AAVMF_CODE.fd",
            "-drive",
            "if=pflash,format=raw,unit=1,file=/vm/firmware.vars.fd",
            "-drive",
            "if=none,id=main,format=qcow2,file=/vm/disk.qcow2",
            "-device",
            "virtio-blk-pci,drive=main",
            "-drive",
            "if=none,id=seed,format=raw,readonly=on,file=/vm/seed.img",
            "-device",
            "virtio-blk-pci,drive=seed",
        ]
    );
}

#[test]
fn launched_machine_is_known_by_its_command_line() {
    let paths = InstancePaths::new("/vm".to_string());
    let spec =
        build_launch_spec_with_accel(&config(GuestArch::Amd64), &paths, AccelMode::Kvm, &vec![])
            .expect("spec");
    let command = format!("{} {}", spec.program, spec.args.join(" "));
    assert!(paths.process_matches_instance(&command));
    assert!(!InstancePaths::new("/other".to_string()).process_matches_instance(&command));
}

#[test]
fn firmware_is_found_where_both_files_are() {
    let places = firmware_candidates();
    assert_eq!(places.len(), 4);
    assert_eq!(places[0].code, "/opt/homebrew/share/qemu/edk2-aarch64-code.fd");
    let missing = discover_aarch64_firmware(&vec![aavmf()[0].clone()]).expect_err("fails");
    assert_eq!(
        missing.to_string(),
        "unable to find aarch64 UEFI firmware; install QEMU/EDK2 firmware"
    );
    let mut both = aavmf();
    both.push("/usr/local/share/qemu/edk2-aarch64-code.fd".to_string());
    both.push("/usr/local/share/qemu/edk2-arm-vars.fd".to_string());
    let found = discover_aarch64_firmware(&both).expect("firmware");
    assert_eq!(found.code, "/usr/local/share/qemu/edk2-aarch64-code.fd");
    assert_eq!(found.vars_template, "/usr/local/share/qemu/edk2-arm-vars.fd");
}

#[test]
fn firmware_variables_are_copied_once() {
    assert_eq!(ensure_firmware_vars(true, &vec![]).expect("vars"), None);
    assert_eq!(
        ensure_firmware_vars(false, &aavmf()).expect("vars"),
        Some("/usr/share/AAVMF/AAVMF_VARS.fd".to_string())
    );
    assert!(ensure_firmware_vars(false, &vec![]).is_err());
}

#[test]
fn arm_machine_needs_firmware() {
    let paths = InstancePaths::new("/vm".to_string());
    let err =
        build_launch_spec_with_accel(&config(GuestArch::Arm64), &paths, AccelMode::Kvm, &vec![])
            .expect_err("fails");
    assert!(err.to_string().contains("aarch64 UEFI firmware"));
    let err = build_launch_spec(&config(GuestArch::Amd64), &paths, &host("linux", true, &[]))
        .expect_err("fails");
    assert_eq!(err.to_string(), tcg_disabled_error_message());
}

#[test]
fn overlay_disk_is_made_once() {
    assert_eq!(create_overlay_disk("/base", "/disk", 24, true), None);
    let call = create_overlay_disk("/base", "/disk", 24, false).expect("call");
    assert_eq!(call.program, "qemu-img");
    assert_eq!(
        call.args,
        vec!["create", "-f", "qcow2", "-F", "qcow2", "-b", "/base", "/disk", "24G"]
    );
    assert!(overlay_outcome(true, "exit status: 0").is_ok());
    assert_eq!(
        overlay_outcome(false, "exit status: 1").expect_err("fails").to_string(),
        "qemu-img create failed with status exit status: 1"
    );
}

#[test]
fn failed_attempts_are_collected() {
    let attempts = vec![AccelMode::Kvm, AccelMode::Hvf];
    let mut errors: Vec<String> = vec![];
    assert_eq!(
        launch_vm(GuestArch::Amd64, &attempts, 0, &mut errors, Some("no kvm")),
        LaunchStep::Next
    );
    match launch_vm(GuestArch::Amd64, &attempts, 1, &mut errors, Some("no hvf")) {
        LaunchStep::Failed(error) => assert_eq!(
            error.to_string(),
            "qemu-system-x86_64 launch attempts failed: kvm: no kvm; hvf: no hvf"
        ),
        other => panic!("unexpected step: {other:?}"),
    }
    let mut none: Vec<String> = vec![];
    assert_eq!(
        launch_vm(GuestArch::Amd64, &attempts, 0, &mut none, None),
        LaunchStep::Started
    );
    assert!(none.is_empty());
    assert!(run_launch_spec("qemu", true, "").is_ok());
    assert_eq!(
        run_launch_spec("qemu", false, " boom \n").expect_err("fails").to_string(),
        "qemu failed: boom"
    );
}

#[test]
fn conversation_gives_the_command() {
    let mut session = system_powerdown();
    assert_eq!(session.line(Some("\n")), QmpAction::Read);
    assert_eq!(
        session.line(Some("{\"QMP\": {}}\n")),
        QmpAction::Send("{\"execute\":\"qmp_capabilities\"}\n".to_string())
    );
    assert_eq!(session.line(Some("{\"event\": \"X\"}")), QmpAction::Read);
    assert_eq!(
        session.line(Some("{\"return\": {}}")),
        QmpAction::Send("{\"execute\":\"system_powerdown\"}\n".to_string())
    );
    assert_eq!(session.line(Some("  ")), QmpAction::Read);
    assert_eq!(session.line(Some("{\"return\": {}}")), QmpAction::Done);
}

#[test]
fn conversation_fails_with_what_was_said() {
    let mut session = QmpSession::new("stop");
    match session.line(None) {
        QmpAction::Fail(error) => {
            assert_eq!(error.to_string(), "unexpected EOF from QMP socket")
        }
        other => panic!("unexpected action: {other:?}"),
    }
    assert!(matches!(session.line(Some("no json")), QmpAction::Fail(_)));
    assert_eq!(session.phase, QmpPhase::Greeting);
    session.line(Some("{}"));
    assert_eq!(session.phase, QmpPhase::Capabilities);
    match session.line(Some("{\"error\": {\"class\": \"A\", \"desc\": \"b\"}}")) {
        QmpAction::Fail(error) => assert_eq!(
            error.to_string(),
            "QMP command failed: {\"class\":\"A\",\"desc\":\"b\"}"
        ),
        other => panic!("unexpected action: {other:?}"),
    }
    assert_eq!(session.line(Some("[1]")), QmpAction::Read);
}

#[test]
fn message_members_decide() {
    let mut session = QmpSession::new("stop");
    session.message(Ok(None), Ok(None));
    assert_eq!(session.message(Ok(None), Ok(None)), QmpAction::Read);
    assert_eq!(
        session.message(Ok(Some("1".to_string())), Ok(Some("2".to_string()))),
        QmpAction::Send("{\"execute\":\"stop\"}\n".to_string())
    );
    assert_eq!(
        session.message(Ok(Some("1".to_string())), Ok(None)),
        QmpAction::Done
    );
}

#[test]
fn members_of_json_are_looked_up_and_written() {
    let value = json::parse("{ \"b\": {\"z\": 1, \"a\": [ null ]}, \"c\": \"x\\ny\" }").expect("json");
    assert_eq!(
        json::member(&value, "b"),
        Some("{\"a\":[null],\"z\":1}".to_string())
    );
    assert_eq!(json::member(&value, "c"), Some("\"x\\ny\"".to_string()));
    assert_eq!(json::member(&value, "a"), None);
    let list = json::parse("[\"b\"]").expect("json");
    assert_eq!(json::member(&list, "b"), None);
    let error = json::parse("{").expect_err("fails");
    assert_eq!(error, "EOF while parsing an object at line 1 column 1");
}
