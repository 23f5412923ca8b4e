use hardpass::error::Error;
use hardpass::lock::sibling_lock_path;
use hardpass::os_text::path_bytes;
use hardpass::os_text::path_text;
use hardpass::state::default_root_path;
use hardpass::state::normalize_path_for_compare;
use hardpass::state::paths_match;
use hardpass::state::sha256_hex;
use hardpass::state::to_hex;
use hardpass::state::validate_name;
use hardpass::state::AccelMode;
use hardpass::state::DirEntry;
use hardpass::state::FileChecksum;
use hardpass::state::GuestArch;
use hardpass::state::HardpassState;
use hardpass::state::InstanceConfig;
use hardpass::state::InstancePaths;
use hardpass::state::InstanceStatus;
use tempfile::tempdir;

fn cwd() -> Result<String, Error> {
    Ok("/work".to_string())
}

fn no_cwd() -> Result<String, Error> {
    Err(Error::new("no current directory".to_string()))
}

fn home() -> Option<String> {
    Some("/home/me".to_string())
}

#[test]
fn sibling_lock_path_adds_lock_suffix() {
    assert_eq!(sibling_lock_path("/tmp/dev"), "/tmp/dev.lock");
}

#[test]
fn sibling_lock_of_a_path_without_a_name() {
    assert_eq!(sibling_lock_path("/"), ".lock");
    assert_eq!(sibling_lock_path("key"), "key.lock");
    assert_eq!(sibling_lock_path("a/.."), "a/.lock");
}

#[test]
fn state_uses_env_override() {
    let dir = tempdir().expect("tempdir");
    let root = dir.path().display().to_string();
    let state = HardpassState::resolve_root(root.clone(), home(), &cwd()).expect("load");
    assert_eq!(state.root(), root);
    if dirs::home_dir().is_some() {
        let state = HardpassState::load_with_root(root.clone(), &cwd()).expect("load");
        assert_eq!(state.root(), root);
        assert!(!state.should_auto_sync_ssh_config());
    }
}

#[test]
fn status_missing_without_config() {
    let dir = tempdir().expect("tempdir");
    let paths = InstancePaths::new(dir.path().join("vm").display().to_string());
    assert_eq!(paths.status(false, None, None), InstanceStatus::Missing);
    assert_eq!(paths.status(false, Some(1), Some("x")), InstanceStatus::Missing);
}

#[test]
fn status_stopped_with_config_only() {
    let paths = InstancePaths::new("/vm".to_string());
    assert_eq!(paths.status(true, None, None), InstanceStatus::Stopped);
    assert_eq!(paths.status(true, Some(7), None), InstanceStatus::Stopped);
}

#[test]
fn status_ignores_alive_process_with_unrelated_pid() {
    let paths = InstancePaths::new("/vm".to_string());
    assert_eq!(
        paths.status(true, Some(7), Some("sleep 30\n")),
        InstanceStatus::Stopped
    );
}

#[test]
fn status_accepts_matching_qemu_process_identity() {
    let dir = tempdir().expect("tempdir");
    let paths = InstancePaths::new(dir.path().join("vm").display().to_string());
    let command = format!(
        "python3 -c import time; time.sleep(30) qemu-system-aarch64 -pidfile {} -qmp unix:{},server=on,wait=off -serial file:{}\n",
        paths.pid, paths.qmp, paths.serial
    );
    assert_eq!(
        paths.status(true, Some(7), Some(&command)),
        InstanceStatus::Running
    );
}

#[test]
fn root_is_taken_from_the_environment_or_from_home() {
    let state = HardpassState::resolve(home(), None, &no_cwd()).expect("state");
    assert_eq!(state.root(), "/home/me/.hardpass");
    assert!(state.manages_ssh_config());
    assert!(state.should_auto_sync_ssh_config());

    let state = HardpassState::resolve(home(), Some("/data".to_string()), &no_cwd()).expect("state");
    assert_eq!(state.root(), "/data");
    assert!(!state.manages_ssh_config());
    assert!(!state.should_auto_sync_ssh_config());

    let named = Some("/home//me/./.hardpass/".to_string());
    let state = HardpassState::resolve(home(), named, &no_cwd()).expect("state");
    assert!(state.manages_ssh_config());
    assert!(!state.should_auto_sync_ssh_config());
}

#[test]
fn root_needs_a_home_and_sometimes_a_current_directory() {
    let error = HardpassState::resolve(None, None, &cwd()).expect_err("fails");
    assert_eq!(error.to_string(), "unable to determine home directory");
    let error =
        HardpassState::resolve(home(), Some("rel".to_string()), &no_cwd()).expect_err("fails");
    assert_eq!(error.to_string(), "no current directory");
    let error = HardpassState::resolve_root("rel".to_string(), home(), &no_cwd())
        .expect_err("fails");
    assert_eq!(error.to_string(), "no current directory");
    assert!(HardpassState::resolve_root("/r".to_string(), None, &cwd()).is_err());
    assert_eq!(
        default_root_path(home()).expect("root"),
        "/home/me/.hardpass"
    );
}

#[test]
fn loaded_state_follows_the_home_of_the_user() {
    if let (Some(path), Ok(state)) = (dirs::home_dir(), HardpassState::load(None, &cwd())) {
        assert_eq!(state.root(), format!("{}/.hardpass", path.display()));
        assert!(state.should_auto_sync_ssh_config());
    }
    if let Ok(state) = HardpassState::load(Some("/x".to_string()), &cwd()) {
        assert_eq!(state.root(), "/x");
        assert!(!state.should_auto_sync_ssh_config());
    }
}

#[test]
fn paths_are_compared_part_by_part() {
    assert!(paths_match("a/b", "/work/a//b/.", &cwd()).expect("match"));
    assert!(!paths_match("/a/b", "/a/../a/b", &cwd()).expect("match"));
    assert!(!paths_match("/a", "/a/b", &cwd()).expect("match"));
    assert!(paths_match("/a", "/a", &no_cwd()).expect("match"));
    assert!(paths_match("/a", "a", &no_cwd()).is_err());
    assert_eq!(
        normalize_path_for_compare("x", &cwd()).expect("path"),
        "/work/x"
    );
}

#[test]
fn directories_of_a_state() {
    let state = HardpassState::resolve_root("/r".to_string(), home(), &cwd()).expect("state");
    assert_eq!(
        state.required_dirs(),
        vec!["/r/images", "/r/instances", "/r/keys", "/r/locks"]
    );
    assert_eq!(state.images_dir(), "/r/images");
    assert_eq!(state.locks_dir(), "/r/locks");
    assert_eq!(state.instances_dir(), "/r/instances");
    assert_eq!(state.keys_dir(), "/r/keys");
    assert_eq!(state.default_ssh_key_path(), "/r/keys/id_ed25519");
    assert_eq!(state.ports_lock_path(), "/r/locks/ports.lock");
    assert_eq!(state.ssh_config_lock_path(), "/r/locks/ssh-config.lock");
    let copy = state.clone();
    assert_eq!(copy.root(), "/r");
}

#[test]
fn files_of_a_machine() {
    let state = HardpassState::resolve_root("/r".to_string(), home(), &cwd()).expect("state");
    let paths = state.instance_paths("dev").expect("paths");
    assert_eq!(paths.dir, "/r/instances/dev");
    assert_eq!(paths.config, "/r/instances/dev/config.json");
    assert_eq!(paths.disk, "/r/instances/dev/disk.qcow2");
    assert_eq!(paths.seed, "/r/instances/dev/seed.img");
    assert_eq!(paths.pid, "/r/instances/dev/pid");
    assert_eq!(paths.qmp, "/r/instances/dev/qmp.sock");
    assert_eq!(paths.serial, "/r/instances/dev/serial.log");
    assert_eq!(paths.firmware_vars, "/r/instances/dev/firmware.vars.fd");
    assert_eq!(paths.lock_path(), "/r/instances/dev.lock");
    assert_eq!(
        paths.runtime_artifacts(),
        vec!["/r/instances/dev/pid", "/r/instances/dev/qmp.sock"]
    );
    let other = state.instance_paths("dev-2").expect("paths");
    assert_ne!(paths.dir, other.dir);
    assert_ne!(paths.lock_path(), other.lock_path());
}

#[test]
fn names_are_validated() {
    assert!(validate_name("Dev-1_x").is_ok());
    assert_eq!(
        validate_name("").expect_err("fails").to_string(),
        "instance name must not be empty"
    );
    let wanted = "instance name may only contain ASCII letters, digits, '-' and '_'";
    for name in ["a b", "../x", "a.b", "ä", "x/"] {
        assert_eq!(validate_name(name).expect_err("fails").to_string(), wanted);
    }
    let state = HardpassState::resolve_root("/r".to_string(), home(), &cwd()).expect("state");
    assert!(state.instance_paths("..").is_err());
}

#[test]
fn names_of_directories_are_listed_in_order() {
    let state = HardpassState::resolve_root("/r".to_string(), home(), &cwd()).expect("state");
    let entry = |name: &str, is_dir: bool| DirEntry {
        name: name.to_string(),
        is_dir,
    };
    let entries = vec![
        entry("beta", true),
        entry("a.lock", false),
        entry("alpha", true),
        entry("Zeta", true),
        entry("alpha2", true),
    ];
    assert_eq!(
        state.instance_names(&entries),
        vec!["Zeta", "alpha", "alpha2", "beta"]
    );
}

#[test]
fn pid_files_are_read() {
    let paths = InstancePaths::new("/vm".to_string());
    assert_eq!(paths.read_pid(None).expect("pid"), None);
    assert_eq!(paths.read_pid(Some(" 42\n")).expect("pid"), Some(42));
    assert_eq!(paths.read_pid(Some("4294967295")).expect("pid"), Some(u32::MAX));
    for raw in ["", " \n", "x", "-1", "+", "++1", "4294967296", "1 2", "99999999999x", "42949672x"] {
        let error = paths.read_pid(Some(raw)).expect_err("fails");
        assert_eq!(error.to_string(), "parse pid file /vm/pid");
        let reason = raw.trim().parse::<u32>().expect_err("no number");
        assert_eq!(error.cause, Some(reason.to_string()));
    }
}

#[test]
fn names_of_enums() {
    assert_eq!(GuestArch::host_native("x86_64").expect("arch"), GuestArch::Amd64);
    assert_eq!(GuestArch::host_native("aarch64").expect("arch"), GuestArch::Arm64);
    assert_eq!(GuestArch::host_native("arm64").expect("arch"), GuestArch::Arm64);
    assert_eq!(
        GuestArch::host_native("riscv64").expect_err("fails").to_string(),
        "unsupported host architecture: riscv64"
    );
    assert_eq!(GuestArch::Amd64.to_string(), "amd64");
    assert_eq!(GuestArch::Arm64.ubuntu_arch(), "arm64");
    assert_eq!(GuestArch::Arm64.qemu_binary(), "qemu-system-aarch64");
    assert_eq!(AccelMode::Auto.to_string(), "auto");
    assert_eq!(AccelMode::Tcg.to_string(), "tcg");
    assert_eq!(InstanceStatus::Missing.to_string(), "missing");
    assert_eq!(InstanceStatus::Running.to_string(), "running");
}

#[test]
fn defaults_of_a_machine() {
    assert_eq!(InstanceConfig::default_release(), "24.04");
    assert_eq!(InstanceConfig::default_cpus(), 4);
    assert_eq!(InstanceConfig::default_memory_mib(), 4096);
    assert_eq!(InstanceConfig::default_disk_gib(), 24);
    assert_eq!(InstanceConfig::default_timeout_secs(), 180);
    assert_eq!(InstanceConfig::default_ssh_user(), "ubuntu");
    assert_eq!(InstanceConfig::default_ssh_host(), "127.0.0.1");
}

#[test]
fn checksums_are_those_of_sha256() {
    let abc = "ba7816bf8f01cfea414140de5dae2223b00361a396177a9cb410ff61f20015ad";
    assert_eq!(sha256_hex(b"abc"), abc);
    assert_eq!(
        sha256_hex(b""),
        "e3b0c44298fc1c149afbf4c8996fb92427ae41e4649b934ca495991b7852b855"
    );
    let mut checksum = FileChecksum::new();
    checksum.read(b"a");
    checksum.read(b"");
    checksum.read(b"bc");
    assert_eq!(checksum.finish(), abc);
    assert_eq!(to_hex(&vec![0, 15, 16, 255]), "000f10ff");
}

#[test]
fn directory_below_a_home_of_any_bytes() {
    let cwd = Ok("/work".to_string());
    let home = || Some(path_text(b"/home/\xe9"));
    let state = HardpassState::resolve(home(), None, &cwd).expect("state");
    assert_eq!(path_bytes(state.root()), b"/home/\xe9/.hardpass");
    assert!(state.manages_ssh_config());
    assert_eq!(path_bytes(&state.images_dir()), b"/home/\xe9/.hardpass/images");
    let root = path_text(b"/home//\xe9/./.hardpass");
    let state = HardpassState::resolve_root(root, home(), &cwd).expect("state");
    assert!(state.manages_ssh_config());
    assert!(!state.should_auto_sync_ssh_config());
    let state = HardpassState::resolve(home(), Some("/data".to_string()), &cwd).expect("state");
    assert_eq!(state.root(), "/data");
    assert!(!state.manages_ssh_config());
    let root = path_text(b"/home/\xea/.hardpass");
    let state = HardpassState::resolve_root(root, home(), &cwd).expect("state");
    assert!(!state.manages_ssh_config());
}
