use std::collections::BTreeSet;

use hardpass::api::Vm;
use hardpass::api::VmSpec;
use hardpass::cli::parse_forward;
use hardpass::cli::CreateArgs;
use hardpass::cli::PrefetchImageArgs;
use hardpass::cloud_init::assemble;
use hardpass::dependencies::brew_install_prompt;
use hardpass::dependencies::brew_outcome;
use hardpass::dependencies::collect_create_missing_dependencies;
use hardpass::dependencies::collect_start_missing_dependencies;
use hardpass::dependencies::command_lookup;
use hardpass::dependencies::command_probe;
use hardpass::dependencies::ensure_host_dependencies;
use hardpass::dependencies::is_yes;
use hardpass::dependencies::maybe_offer_brew_install;
use hardpass::dependencies::missing_dependency_message_for_os;
use hardpass::dependencies::resolve_command_path;
use hardpass::dependencies::should_offer_brew_install;
use hardpass::dependencies::HostDependency;
use hardpass::dependencies::HostTools;
use hardpass::error::Error;
use hardpass::images::image_config_for;
use hardpass::instance::admit_create;
use hardpass::instance::collect_reserved_host_ports;
use hardpass::instance::collect_ssh_alias_entries;
use hardpass::instance::create_instance;
use hardpass::instance::create_target;
use hardpass::instance::delete_inner;
use hardpass::instance::ensure_existing_artifacts;
use hardpass::instance::ensure_match;
use hardpass::instance::expand_path;
use hardpass::instance::expand_path_from;
use hardpass::instance::must_stop_first;
use hardpass::instance::prefetch_target;
use hardpass::instance::requested_forwards;
use hardpass::instance::require_instance;
use hardpass::instance::require_running;
use hardpass::instance::resolve_ssh_key_path;
use hardpass::instance::signal_failure;
use hardpass::instance::start_locked;
use hardpass::instance::stop_inner;
use hardpass::instance::stop_waited;
use hardpass::instance::validate_arch_accel_combo;
use hardpass::instance::wait_for_pid;
use hardpass::instance::wait_for_process_exit;
use hardpass::instance::DeleteAction;
use hardpass::instance::ExitWait;
use hardpass::instance::FoundConfig;
use hardpass::instance::PidWait;
use hardpass::instance::StartStep;
use hardpass::instance::StopAction;
use hardpass::instance::StopPhase;
use hardpass::instance::StopSignal;
use hardpass::instance::VmInfo;
use hardpass::ports::host_port_bound;
use hardpass::ports::reserve_ports;
use hardpass::ports::ssh_port_offered;
use hardpass::ports::PortStep;
use hardpass::qemu::resolve_accel_for_env;
use hardpass::qemu::HostEnv;
use hardpass::report::booting_message;
use hardpass::report::created_lines;
use hardpass::report::doctor;
use hardpass::report::info_lines;
use hardpass::report::list_output;
use hardpass::report::list_row;
use hardpass::report::prefetched_lines;
use hardpass::report::ready_lines;
use hardpass::report::render_list_table;
use hardpass::report::ListRow;
use hardpass::report::SerialTailState;
use hardpass::report::ToolPaths;
use hardpass::state::AccelMode;
use hardpass::state::CloudInitConfig;
use hardpass::state::GuestArch;
use hardpass::state::HardpassState;
use hardpass::state::ImageConfig;
use hardpass::state::InstanceConfig;
use hardpass::state::InstancePaths;
use hardpass::state::InstanceStatus;
use hardpass::state::PortForward;
use hardpass::state::SshConfig;
use tempfile::tempdir;

fn machine(name: &str, dir: &str, port: u16, forwards: Vec<PortForward>) -> InstanceConfig {
    InstanceConfig {
        name: name.into(),
        release: "24.04".into(),
        arch: GuestArch::Arm64,
        accel: AccelMode::Auto,
        cpus: 4,
        memory_mib: 4096,
        disk_gib: 24,
        timeout_secs: 180,
        ssh: SshConfig {
            user: "ubuntu".into(),
            host: "127.0.0.1".into(),
            port,
            identity_file: format!("{dir}/id_ed25519"),
        },
        forwards,
        image: ImageConfig {
            release: "24.04".into(),
            arch: GuestArch::Arm64,
            url: "https://example.invalid".into(),
            sha256_url: "https://example.invalid/SHA256SUMS".into(),
            filename: "ubuntu.img".into(),
            sha256: "abc".into(),
        },
        cloud_init: CloudInitConfig {
            user_data_sha256: "abc".into(),
            network_config_sha256: None,
        },
    }
}

fn cwd() -> Result<String, Error> {
    Ok("/work".to_string())
}

fn no_cwd() -> Result<String, Error> {
    Err(Error::new("no current directory".to_string()))
}

fn args(spec: VmSpec) -> CreateArgs {
    spec.into_create_args()
}

fn all_tools() -> HostTools {
    HostTools {
        qemu_img: true,
        qemu_system: true,
        ssh: true,
        ssh_keygen: true,
        firmware: true,
    }
}

#[test]
fn ensure_match_reports_differences() {
    let err = ensure_match("cpus", &2u8, &4u8).expect_err("should fail");
    assert!(err.to_string().contains("configuration mismatch"));
    assert_eq!(
        err.to_string(),
        "instance configuration mismatch for cpus: existing=2, requested=4. Delete and recreate the VM to change it."
    );
    assert!(ensure_match("memory", &2u32, &2u32).is_ok());
    assert!(ensure_match("timeout", &2u64, &3u64).is_err());
}

#[test]
fn booting_message_is_concise() {
    assert_eq!(
        booting_message("neuromancer"),
        "Booting neuromancer; waiting for SSH..."
    );
}

#[test]
fn expand_relative_paths() {
    let current = "/work/here".to_string();
    let path = expand_path("relative/file", &Ok(current.clone())).expect("expand");
    assert!(path.starts_with(&current));
    assert_eq!(path, "/work/here/relative/file");
}

#[test]
fn info_output_captures_paths() {
    let dir = tempdir().expect("tempdir");
    let paths = InstancePaths::new(dir.path().join("vm").display().to_string());
    let mut config = machine(
        "vm",
        &dir.path().display().to_string(),
        2222,
        vec![PortForward {
            host: 8080,
            guest: 8080,
        }],
    );
    config.cloud_init.network_config_sha256 = Some("def".into());
    let output = VmInfo::from_config(&config, &paths, InstanceStatus::Stopped);
    assert_eq!(output.name, "vm");
    assert_eq!(output.status, InstanceStatus::Stopped);
    assert_eq!(output.ssh.port, 2222);
    assert_eq!(output.ssh.alias, "vm");
    assert_eq!(output.serial_log, paths.serial);
    assert_eq!(output.clone(), output);
}

#[test]
fn created_lines_use_start_hint() {
    let dir = tempdir().expect("tempdir");
    let paths = InstancePaths::new(dir.path().join("neuromancer").display().to_string());
    let config = machine("neuromancer", &dir.path().display().to_string(), 49702, vec![]);
    let info = VmInfo::from_config(&config, &paths, InstanceStatus::Stopped);
    let lines = created_lines(&info);
    assert_eq!(lines[0], "Created neuromancer");
    assert_eq!(lines[1], "start: hp start neuromancer");
    assert!(lines[2].contains("serial log:"));
}

#[test]
fn ready_lines_use_hardpass_ssh_hint() {
    let dir = tempdir().expect("tempdir");
    let paths = InstancePaths::new(dir.path().join("neuromancer").display().to_string());
    let config = machine("neuromancer", &dir.path().display().to_string(), 49702, vec![]);
    let info = VmInfo::from_config(&config, &paths, InstanceStatus::Running);
    let lines = ready_lines(&info);
    assert_eq!(lines[0], "neuromancer is ready");
    assert_eq!(lines[1], "ssh: hp ssh neuromancer");
    assert!(lines[2].contains("serial log:"));
}

#[test]
fn qemu_only_missing_dependencies_have_install_hint() {
    let message = missing_dependency_message_for_os(
        GuestArch::Arm64,
        &[HostDependency::QemuSystem, HostDependency::Aarch64Firmware],
        "macos",
    );
    assert!(message.contains("QEMU is not installed or incomplete"));
    assert!(message.contains("qemu-system-aarch64"));
    assert!(message.contains("aarch64-firmware"));
    assert!(message.contains("brew install qemu"));
    assert!(message.contains("hp doctor"));
}

#[test]
fn mixed_missing_dependencies_use_generic_message() {
    let message = missing_dependency_message_for_os(
        GuestArch::Amd64,
        &[HostDependency::QemuImg, HostDependency::SshKeygen],
        "linux",
    );
    assert!(message.contains("missing required host dependencies"));
    assert!(message.contains("qemu-img"));
    assert!(message.contains("ssh-keygen"));
    assert!(message.contains("hp doctor"));
}

#[test]
fn linux_qemu_hint_stays_generic() {
    let message = missing_dependency_message_for_os(
        GuestArch::Amd64,
        &[HostDependency::QemuImg, HostDependency::QemuSystem],
        "linux",
    );
    assert!(message.contains("install QEMU"));
    assert!(!message.contains("brew install qemu"));
}

#[test]
fn cross_arch_requires_tcg_for_auto() {
    let err = validate_arch_accel_combo(GuestArch::Arm64, GuestArch::Amd64, AccelMode::Auto)
        .expect_err("should fail");
    assert!(err.to_string().contains("--accel tcg"));
    assert!(err.to_string().contains("cross-architecture emulation"));
}

#[test]
fn cross_arch_requires_tcg_for_non_tcg_explicit_accel() {
    let err = validate_arch_accel_combo(GuestArch::Arm64, GuestArch::Amd64, AccelMode::Hvf)
        .expect_err("should fail");
    assert!(err.to_string().contains("host-native guests"));
    assert!(err.to_string().contains("--accel tcg"));
}

#[test]
fn cross_arch_is_allowed_with_tcg() {
    validate_arch_accel_combo(GuestArch::Arm64, GuestArch::Amd64, AccelMode::Tcg)
        .expect("tcg should allow cross-arch guests");
}

#[test]
fn brew_offer_only_happens_on_interactive_macos_with_brew() {
    assert!(should_offer_brew_install(
        "macos",
        &[HostDependency::QemuImg],
        true,
        true,
        true,
    ));
    assert!(!should_offer_brew_install(
        "linux",
        &[HostDependency::QemuImg],
        true,
        true,
        true,
    ));
    assert!(!should_offer_brew_install(
        "macos",
        &[HostDependency::QemuImg],
        false,
        true,
        true,
    ));
    assert!(!should_offer_brew_install(
        "macos",
        &[HostDependency::QemuImg],
        true,
        true,
        false,
    ));
    assert!(!should_offer_brew_install(
        "macos",
        &[HostDependency::Ssh],
        true,
        true,
        true,
    ));
}

#[test]
fn brew_prompt_lists_qemu_missing_bits_only() {
    let prompt = brew_install_prompt(
        GuestArch::Arm64,
        &[
            HostDependency::QemuImg,
            HostDependency::Ssh,
            HostDependency::Aarch64Firmware,
        ],
    );
    assert!(prompt.contains("qemu-img"));
    assert!(prompt.contains("aarch64-firmware"));
    assert!(!prompt.contains("ssh"));
    assert!(prompt.contains("brew install qemu"));
    assert_eq!(
        prompt,
        "QEMU is missing (qemu-img, aarch64-firmware). Run `brew install qemu` now? [y/N]: "
    );
}

#[test]
fn list_table_aligns_columns_with_spaces() {
    let output = render_list_table(&[
        ListRow {
            name: "neuromancer".into(),
            status: "running".into(),
            arch: "arm64".into(),
            release: "24.04".into(),
            ssh: "127.0.0.1:63320".into(),
        },
        ListRow {
            name: "vm".into(),
            status: "stopped".into(),
            arch: "amd64".into(),
            release: "24.04".into(),
            ssh: "127.0.0.1:40222".into(),
        },
    ]);
    let lines = output.lines().collect::<Vec<_>>();
    assert_eq!(lines[0], "NAME         STATUS   ARCH   RELEASE  SSH");
    assert_eq!(
        lines[1],
        "neuromancer  running  arm64  24.04    127.0.0.1:63320"
    );
    assert_eq!(
        lines[2],
        "vm           stopped  amd64  24.04    127.0.0.1:40222"
    );
}

#[test]
fn wide_characters_count_as_their_bytes() {
    let config = machine("äö", "/", 1, vec![]);
    let mut row = list_row(&config, InstanceStatus::Stopped);
    row.release = "éééé".into();
    assert_eq!(
        list_output(&[row]),
        "NAME  STATUS   ARCH   RELEASE   SSH\näö    stopped  arm64  éééé      127.0.0.1:1\n"
    );
    assert_eq!(list_output(&[]), "No Hardpass instances found\n");
}

#[test]
fn details_of_a_machine_are_shown() {
    let paths = InstancePaths::new("/r/vm".to_string());
    let mut config = machine("vm", "/k", 2222, vec![]);
    let info = VmInfo::from_config(&config, &paths, InstanceStatus::Running);
    assert_eq!(
        info_lines(&info),
        vec![
            "name: vm",
            "status: running",
            "release: 24.04",
            "arch: arm64",
            "ssh: ubuntu@127.0.0.1:2222",
            "ssh alias: vm",
            "instance_dir: /r/vm",
            "serial_log: /r/vm/serial.log",
            "forwards: none",
        ]
    );
    config.forwards = vec![
        PortForward { host: 80, guest: 8080 },
        PortForward { host: 81, guest: 22 },
    ];
    let info = VmInfo::from_config(&config, &paths, InstanceStatus::Running);
    assert_eq!(info_lines(&info)[8], "forwards: 80:8080, 81:22");
    assert_eq!(
        prefetched_lines("24.04", GuestArch::Amd64, "/p", "s", 5),
        ["Prefetched Ubuntu 24.04 amd64 image", "path: /p", "sha256: s", "size_bytes: 5"]
    );
}

#[test]
fn missing_tools_are_collected_in_order() {
    assert_eq!(
        collect_create_missing_dependencies(GuestArch::Arm64, all_tools()),
        vec![]
    );
    let none = HostTools {
        qemu_img: false,
        qemu_system: false,
        ssh: false,
        ssh_keygen: false,
        firmware: false,
    };
    assert_eq!(
        collect_create_missing_dependencies(GuestArch::Arm64, none),
        vec![
            HostDependency::QemuImg,
            HostDependency::QemuSystem,
            HostDependency::SshKeygen,
            HostDependency::Aarch64Firmware
        ]
    );
    assert_eq!(
        collect_start_missing_dependencies(GuestArch::Arm64, true, none),
        vec![
            HostDependency::QemuSystem,
            HostDependency::Ssh,
            HostDependency::Aarch64Firmware
        ]
    );
    assert_eq!(
        collect_start_missing_dependencies(GuestArch::Amd64, false, none),
        vec![HostDependency::Ssh]
    );
    assert!(ensure_host_dependencies(GuestArch::Amd64, &[], "linux").is_ok());
    assert_eq!(
        ensure_host_dependencies(GuestArch::Amd64, &[HostDependency::Ssh], "linux")
            .expect_err("fails")
            .to_string(),
        "missing required host dependencies: ssh; run `hp doctor` for details"
    );
    assert_eq!(HostDependency::QemuSystem.label(GuestArch::Amd64), "qemu-system-x86_64");
    assert!(!HostDependency::SshKeygen.is_qemu_related());
}

#[test]
fn question_is_asked_where_it_is_allowed() {
    let missing = [HostDependency::QemuImg];
    assert!(maybe_offer_brew_install("macos", GuestArch::Arm64, &missing, true, true, true, true)
        .is_some());
    assert_eq!(
        maybe_offer_brew_install("macos", GuestArch::Arm64, &missing, false, true, true, true),
        None
    );
    assert_eq!(
        maybe_offer_brew_install("linux", GuestArch::Arm64, &missing, true, true, true, true),
        None
    );
    assert!(is_yes(" Y\n") && is_yes("yEs") && !is_yes("") && !is_yes("yep") && !is_yes("n"));
    assert!(brew_outcome(true, "").is_ok());
    assert_eq!(
        brew_outcome(false, "exit status: 1").expect_err("fails").to_string(),
        "`brew install qemu` failed with status exit status: 1"
    );
    assert_eq!(command_lookup("ssh"), "command -v ssh");
    assert_eq!(command_probe("ssh"), "command -v ssh >/dev/null 2>&1");
    assert_eq!(resolve_command_path(true, "/bin/ssh\n"), Some("/bin/ssh".to_string()));
    assert_eq!(resolve_command_path(false, "/bin/ssh\n"), None);
}

#[test]
fn host_is_reported_line_by_line() {
    let tools = ToolPaths {
        qemu_img: Some("/bin/qemu-img".to_string()),
        qemu_system: None,
        ssh: Some("/bin/ssh".to_string()),
        ssh_keygen: Some("/bin/ssh-keygen".to_string()),
    };
    let env = HostEnv {
        os: "linux".to_string(),
        kvm: false,
        files: vec![],
    };
    let report = doctor(GuestArch::Arm64, &tools, &env);
    assert_eq!(
        report.lines,
        vec![
            "Host architecture: arm64",
            "ok    qemu-img             /bin/qemu-img",
            "fail  qemu-system-aarch64  not found",
            "ok    ssh                  /bin/ssh",
            "ok    ssh-keygen           /bin/ssh-keygen",
            "fail  aarch64-firmware     unable to find aarch64 UEFI firmware; install QEMU/EDK2 firmware",
            "warn  kvm                  /dev/kvm unavailable; `hp start` will fail: Hardpass requires KVM on Linux and does not fall back to TCG",
        ]
    );
    assert_eq!(
        report.result.expect_err("fails").to_string(),
        "doctor found missing requirements"
    );
}

#[test]
fn host_without_kvm_is_only_warned() {
    let found = || Some("/x".to_string());
    let tools = ToolPaths {
        qemu_img: found(),
        qemu_system: found(),
        ssh: found(),
        ssh_keygen: found(),
    };
    let mut env = HostEnv {
        os: "linux".to_string(),
        kvm: false,
        files: vec![],
    };
    let report = doctor(GuestArch::Amd64, &tools, &env);
    assert!(report.result.is_ok());
    assert_eq!(report.lines.len(), 6);
    assert!(report.lines[5].contains("/dev/kvm unavailable"));
    assert!(report.lines.iter().all(|line| !line.contains("--accel tcg")));
    for accel in [AccelMode::Auto, AccelMode::Hvf, AccelMode::Kvm, AccelMode::Tcg] {
        assert!(resolve_accel_for_env(accel, "linux", false).is_err());
    }
    env.os = "macos".to_string();
    env.files = vec![
        "/usr/share/AAVMF/AAVMF_CODE.fd".to_string(),
        "/usr/share/AAVMF/AAVMF_VARS.fd".to_string(),
    ];
    let report = doctor(GuestArch::Arm64, &tools, &env);
    assert!(report.result.is_ok());
    assert_eq!(
        report.lines[5],
        "ok    aarch64-firmware     code=/usr/share/AAVMF/AAVMF_CODE.fd vars=/usr/share/AAVMF/AAVMF_VARS.fd"
    );
}

#[test]
fn paths_of_the_user_are_expanded() {
    let home = || Some("/home/me".to_string());
    let full = |path: &str| expand_path_from(path, home(), &cwd()).expect("path");
    assert_eq!(full("~"), "/home/me");
    assert_eq!(full("~/a/b"), "/home/me/a/b");
    assert_eq!(full("~x"), "/work/~x");
    assert_eq!(full("/abs"), "/abs");
    assert_eq!(full("rel"), "/work/rel");
    assert_eq!(
        expand_path_from("~/a", None, &cwd()).expect_err("fails").to_string(),
        "unable to determine home directory"
    );
    assert_eq!(
        expand_path_from("rel", home(), &no_cwd()).expect_err("fails").to_string(),
        "no current directory"
    );
    assert!(expand_path_from("/abs", None, &no_cwd()).is_ok());
    if let Some(home) = dirs::home_dir() {
        assert_eq!(
            expand_path("~/k", &cwd()).expect("path"),
            home.join("k").display().to_string()
        );
    }
}

#[test]
fn key_is_the_one_asked_for() {
    let state = HardpassState::resolve_root("/r".to_string(), Some("/h".to_string()), &cwd())
        .expect("state");
    assert_eq!(
        resolve_ssh_key_path(&state, None, &cwd()).expect("key"),
        "/r/keys/id_ed25519"
    );
    assert_eq!(
        resolve_ssh_key_path(&state, Some("my"), &cwd()).expect("key"),
        "/work/my"
    );
}

#[test]
fn target_of_a_new_machine() {
    let plain = args(VmSpec::new("dev"));
    assert_eq!(
        create_target(&plain, GuestArch::Arm64).expect("target"),
        (GuestArch::Arm64, AccelMode::Auto)
    );
    let cross = args(VmSpec::new("dev").arch(GuestArch::Amd64).accel(AccelMode::Kvm));
    assert_eq!(
        create_target(&cross, GuestArch::Arm64).expect_err("fails").to_string(),
        "acceleration mode kvm only supports host-native guests (arm64); use `--accel tcg` for amd64 emulation"
    );
    let auto = args(VmSpec::new("dev").arch(GuestArch::Amd64));
    assert_eq!(
        create_target(&auto, GuestArch::Arm64).expect_err("fails").to_string(),
        "guest architecture amd64 does not match host architecture arm64; use `--accel tcg` for cross-architecture emulation"
    );
    assert!(admit_create("dev", InstanceStatus::Missing).is_ok());
    assert_eq!(
        admit_create("dev", InstanceStatus::Stopped).expect_err("fails").to_string(),
        "instance dev already exists; use `hp start dev` or `hp delete dev`"
    );
    assert!(admit_create("dev", InstanceStatus::Running).is_err());
}

#[test]
fn new_machine_has_defaults() {
    let image = image_config_for("u", "24.04", GuestArch::Amd64, Some("s".to_string()));
    let render = assemble("dev", "x", None);
    let config = create_instance(
        &args(VmSpec::new("dev")),
        GuestArch::Amd64,
        "/k".to_string(),
        2200,
        image.clone(),
        &render,
    )
    .expect("config");
    assert_eq!(config.name, "dev");
    assert_eq!(config.release, "24.04");
    assert_eq!(config.arch, GuestArch::Amd64);
    assert_eq!(config.accel, AccelMode::Auto);
    assert_eq!(
        (config.cpus, config.memory_mib, config.disk_gib, config.timeout_secs),
        (4, 4096, 24, 180)
    );
    assert_eq!(
        config.ssh,
        SshConfig {
            user: "ubuntu".to_string(),
            host: "127.0.0.1".to_string(),
            port: 2200,
            identity_file: "/k".to_string(),
        }
    );
    assert_eq!(config.image, image);
    assert_eq!(config.cloud_init.user_data_sha256, render.user_data_sha256);
    assert_eq!(config.clone(), config);
}

#[test]
fn new_machine_is_as_asked_for() {
    let spec = VmSpec::new("dev")
        .release("22.04")
        .arch(GuestArch::Arm64)
        .accel(AccelMode::Hvf)
        .cpus(1)
        .memory_mib(512)
        .disk_gib(8)
        .ssh_key("/key")
        .forward(8080, 80)
        .forward(8081, 81)
        .timeout_secs(9)
        .cloud_init_user_data("/u")
        .cloud_init_network_config("/n");
    let asked = args(spec);
    assert_eq!(asked.ssh_key, Some("/key".to_string()));
    assert_eq!(asked.cloud_init_user_data, Some("/u".to_string()));
    assert_eq!(asked.cloud_init_network_config, Some("/n".to_string()));
    assert_eq!(asked.forwards, vec![(8080, 80), (8081, 81)]);
    let image = || image_config_for("u", "22.04", GuestArch::Arm64, None);
    let render = assemble("dev", "x", None);
    let config = create_instance(
        &asked,
        GuestArch::Arm64,
        "/key".to_string(),
        2200,
        image(),
        &render,
    )
    .expect("config");
    assert_eq!(config.release, "22.04");
    assert_eq!(
        (config.cpus, config.memory_mib, config.disk_gib, config.timeout_secs),
        (1, 512, 8, 9)
    );
    assert_eq!(config.forwards[1], PortForward { host: 8081, guest: 81 });
    let error = create_instance(
        &asked,
        GuestArch::Arm64,
        "/key".to_string(),
        8081,
        image(),
        &render,
    )
    .expect_err("fails");
    assert_eq!(error.to_string(), "duplicate host port requested: 8081");
    assert!(
        create_instance(&asked, GuestArch::Amd64, "/key".to_string(), 1, image(), &render).is_err()
    );
}

#[test]
fn ports_of_all_machines_are_reserved() {
    let configs = vec![
        machine("a", "/", 1, vec![PortForward { host: 10, guest: 1 }]),
        machine(
            "b",
            "/",
            2,
            vec![
                PortForward { host: 20, guest: 1 },
                PortForward { host: 21, guest: 1 },
            ],
        ),
    ];
    assert_eq!(
        collect_reserved_host_ports(&configs),
        BTreeSet::from([1, 2, 10, 20, 21])
    );
    let entries = collect_ssh_alias_entries(&configs);
    assert_eq!(entries.len(), 2);
    assert_eq!(entries[1].alias, "b");
    assert_eq!(entries[1].port, 2);
    assert_eq!(entries[0].identity_file, "//id_ed25519");
}

#[test]
fn image_to_prefetch() {
    let none = PrefetchImageArgs {
        release: None,
        arch: None,
    };
    assert_eq!(
        prefetch_target(&none, "x86_64").expect("target"),
        ("24.04".to_string(), GuestArch::Amd64)
    );
    let both = PrefetchImageArgs {
        release: Some("22.04".to_string()),
        arch: Some(GuestArch::Arm64),
    };
    assert_eq!(
        prefetch_target(&both, "x86_64").expect("target"),
        ("22.04".to_string(), GuestArch::Arm64)
    );
    assert!(prefetch_target(&both, "mips").is_err());
}

#[test]
fn machine_has_to_be_there_or_to_run() {
    assert!(require_instance("dev", true).is_ok());
    assert_eq!(
        require_instance("dev", false).expect_err("fails").to_string(),
        "instance dev does not exist"
    );
    assert!(require_running("dev", InstanceStatus::Running).is_ok());
    assert_eq!(
        require_running("dev", InstanceStatus::Stopped).expect_err("fails").to_string(),
        "instance dev is not running; use `hp start dev` first"
    );
    let paths = InstancePaths::new("/vm".to_string());
    assert!(ensure_existing_artifacts(&paths, true, true).is_ok());
    assert_eq!(
        ensure_existing_artifacts(&paths, false, false).expect_err("fails").to_string(),
        "missing VM disk at /vm/disk.qcow2; delete and recreate"
    );
    assert_eq!(
        ensure_existing_artifacts(&paths, true, false).expect_err("fails").to_string(),
        "missing cloud-init seed image at /vm/seed.img; delete and recreate"
    );
}

#[test]
fn steps_of_a_start() {
    assert_eq!(
        start_locked("dev", InstanceStatus::Missing, true).expect_err("fails").to_string(),
        "instance dev does not exist; use `hp create dev` first"
    );
    assert_eq!(
        start_locked("dev", InstanceStatus::Stopped, true).expect("steps"),
        vec![
            StartStep::CheckDependencies { needs_launch: true },
            StartStep::CheckArtifacts,
            StartStep::ClearRuntime,
            StartStep::Launch,
            StartStep::WaitForPid,
            StartStep::WaitForSsh { show_serial: true },
        ]
    );
    assert_eq!(
        start_locked("dev", InstanceStatus::Running, true).expect("steps"),
        vec![
            StartStep::CheckDependencies { needs_launch: false },
            StartStep::WaitForSsh { show_serial: false },
        ]
    );
}

#[test]
fn machine_without_configuration_is_passed_over() {
    let config = machine("a", "/", 1, vec![PortForward { host: 10, guest: 1 }]);
    assert_eq!(FoundConfig::Missing.of_machine(), Ok(None));
    assert_eq!(FoundConfig::Missing.if_readable(), None);
    assert_eq!(
        FoundConfig::Read(config.clone()).of_machine(),
        Ok(Some(config.clone()))
    );
    assert_eq!(FoundConfig::Read(config.clone()).if_readable(), Some(config));
    let error = Error::caused("parse /c".to_string(), "eof".to_string());
    assert_eq!(
        FoundConfig::Unreadable(error.clone()).of_machine(),
        Err(error.clone())
    );
    assert_eq!(FoundConfig::Unreadable(error).if_readable(), None);
}

#[test]
fn requests_begin_with_nothing_asked_for() {
    let spec = VmSpec::default();
    assert_eq!(spec.name, "");
    assert!(spec.forwards.is_empty());
    let named = VmSpec::new("dev").cpus(2).forward(1, 2);
    let copy = named.clone();
    assert_eq!(copy.name, "dev");
    assert_eq!(copy.cpus, Some(2));
    assert_eq!(copy.forwards, named.forwards);
    let args = named.into_create_args();
    assert_eq!(args.clone().forwards, vec![(1, 2)]);
    assert_eq!(SerialTailState::default(), SerialTailState::new());
}

#[test]
fn pid_file_is_waited_for() {
    assert_eq!(wait_for_pid(0, Some(7)), PidWait::Found(7));
    assert_eq!(wait_for_pid(48, None), PidWait::Retry(100));
    match wait_for_pid(49, None) {
        PidWait::GiveUp(millis, error) => {
            assert_eq!(millis, 100);
            assert_eq!(error.to_string(), "QEMU did not write a pid file");
        }
        other => panic!("unexpected step: {other:?}"),
    }
}

#[test]
fn machine_is_asked_then_told_then_killed() {
    let (phase, action) = stop_inner("dev", InstanceStatus::Running, Some(9), true);
    assert_eq!(action, StopAction::Powerdown { wait_secs: 20 });
    let (phase, action) = stop_waited("dev", 9, phase, false);
    assert_eq!(
        action,
        StopAction::Signal {
            pid: 9,
            signal: StopSignal::Term,
            required: false,
            wait_secs: 5
        }
    );
    let (phase, action) = stop_waited("dev", 9, phase, false);
    assert_eq!(
        action,
        StopAction::Signal {
            pid: 9,
            signal: StopSignal::Kill,
            required: true,
            wait_secs: 2
        }
    );
    let (phase, action) = stop_waited("dev", 9, phase, false);
    assert_eq!(phase, StopPhase::Over);
    assert_eq!(
        action,
        StopAction::Clear {
            message: "Stopped dev".to_string()
        }
    );
    let (phase, _) = stop_inner("dev", InstanceStatus::Running, Some(9), true);
    assert_eq!(stop_waited("dev", 9, phase, true).0, StopPhase::Over);
}

#[test]
fn machine_without_a_socket_is_told_at_once() {
    assert_eq!(
        stop_inner("dev", InstanceStatus::Running, Some(9), false).1,
        StopAction::Signal {
            pid: 9,
            signal: StopSignal::Term,
            required: true,
            wait_secs: 20
        }
    );
    assert_eq!(
        stop_inner("dev", InstanceStatus::Stopped, None, false).1,
        StopAction::Clear {
            message: "dev is already stopped".to_string()
        }
    );
    let message = |status: InstanceStatus| match stop_inner("dev", status, None, false).1 {
        StopAction::Fail(error) => error.to_string(),
        other => panic!("unexpected action: {other:?}"),
    };
    assert_eq!(message(InstanceStatus::Missing), "instance dev does not exist");
    assert_eq!(message(InstanceStatus::Running), "missing pid file");
    assert_eq!(wait_for_process_exit(false, false), ExitWait::Exited);
    assert_eq!(wait_for_process_exit(true, true), ExitWait::Retry(250));
    assert_eq!(wait_for_process_exit(true, false), ExitWait::StillAlive);
    assert_eq!(signal_failure(9, StopSignal::Kill), "send SIGKILL to pid 9");
    assert_eq!(signal_failure(9, StopSignal::Term), "send SIGTERM to pid 9");
}

#[test]
fn machine_is_deleted() {
    assert!(must_stop_first(InstanceStatus::Running));
    assert!(!must_stop_first(InstanceStatus::Stopped));
    assert_eq!(
        delete_inner("dev", true),
        DeleteAction::Remove {
            message: "Deleted dev".to_string()
        }
    );
    assert_eq!(
        delete_inner("dev", false),
        DeleteAction::Nothing {
            message: "Instance dev does not exist".to_string()
        }
    );
}

#[test]
fn serial_log_is_ended_where_it_has_to_be() {
    let mut state = SerialTailState::new();
    assert!(!state.needs_newline());
    state.read_serial_delta(b"");
    assert_eq!(state, SerialTailState::new());
    state.read_serial_delta(b"boot");
    assert!(state.needs_newline());
    assert_eq!(state.offset, 4);
    state.read_serial_delta(b"ed\n");
    assert!(!state.needs_newline());
    assert_eq!(state.offset, 7);
}

#[test]
fn forwards_are_parsed() {
    assert_eq!(parse_forward("8080:80"), Ok((8080, 80)));
    assert_eq!(parse_forward("8080"), Err("forward must be HOST:GUEST".to_string()));
    assert_eq!(parse_forward("x:80"), Err("invalid host port: x".to_string()));
    assert_eq!(parse_forward("70000:80"), Err("invalid host port: 70000".to_string()));
    assert_eq!(parse_forward("1:2:3"), Err("invalid guest port: 2:3".to_string()));
    for port in [0u16, 7, 65535] {
        assert_eq!(parse_forward(&format!("{port}:{port}")), Ok((port, port)));
    }
}

#[test]
fn machines_are_named() {
    assert_eq!(Vm::new("dev").expect("vm").name(), "dev");
    assert_eq!(
        Vm::new("a b").expect_err("fails").to_string(),
        "instance name may only contain ASCII letters, digits, '-' and '_'"
    );
}

#[test]
fn only_native_guests_come_to_run() {
    let emulated = args(VmSpec::new("dev").arch(GuestArch::Amd64).accel(AccelMode::Tcg));
    let (_, accel) = create_target(&emulated, GuestArch::Arm64).expect("target");
    assert!(resolve_accel_for_env(accel, "linux", true).is_err());
    assert!(resolve_accel_for_env(accel, "macos", true).is_err());
}

#[test]
fn reserved_ports_are_not_shared() {
    let mut configs = vec![machine("a", "/", 1, vec![PortForward { host: 10, guest: 1 }])];
    let occupied = collect_reserved_host_ports(&configs);
    let asked = args(VmSpec::new("b").forward(20, 1));
    let forwards = requested_forwards(&asked);
    assert_eq!(reserve_ports(&forwards, &occupied), PortStep::Bind(0));
    assert_eq!(host_port_bound(&forwards, &occupied, 0, None), PortStep::Choose);
    for offer in [1, 10, 20] {
        assert_eq!(ssh_port_offered(&forwards, &occupied, Ok(offer)), PortStep::Choose);
    }
    let config = create_instance(
        &asked,
        GuestArch::Arm64,
        "/k".to_string(),
        21,
        image_config_for("u", "24.04", GuestArch::Arm64, None),
        &assemble("b", "x", None),
    )
    .expect("config");
    configs.push(config);
    assert_eq!(
        collect_reserved_host_ports(&configs),
        BTreeSet::from([1, 10, 20, 21])
    );
}
