use hardpass::cloud_init::accept_override;
use hardpass::cloud_init::assemble;
use hardpass::cloud_init::compose_user_data;
use hardpass::cloud_init::read_cloud_config_yaml;
use hardpass::cloud_init::render_cloud_init;
use hardpass::cloud_init::seed_files;
use hardpass::cloud_init::seed_image_size;
use hardpass::cloud_init::seed_label;
use hardpass::cloud_init::with_header;
use hardpass::cloud_init::CloudInitRender;
use hardpass::error::Error;
use hardpass::yaml::merge_yaml;
use hardpass::yaml::parse;
use hardpass::yaml::render;

fn yaml(text: &str) -> serde_yaml::Value {
    parse(text).expect("yaml")
}

fn merged(under: &str, over: &str) -> String {
    render(&merge_yaml(yaml(under), yaml(over))).expect("text")
}

#[test]
fn renders_default_cloud_init() {
    let render =
        render_cloud_init("dev", "ssh-ed25519 AAAA hardpass", None, Ok(None)).expect("render");
    let yaml = String::from_utf8(render.user_data).expect("utf8");
    assert!(yaml.starts_with("#cloud-config"));
    assert!(yaml.contains("ssh-ed25519 AAAA hardpass"));
}

#[test]
fn merge_override_replaces_values() {
    let render = render_cloud_init(
        "dev",
        "ssh-ed25519 AAAA hardpass",
        Some((
            "/tmp/user-data.yaml",
            "#cloud-config\nresize_rootfs: false\nhostname: custom\n",
        )),
        Ok(None),
    )
    .expect("render");
    let value: serde_yaml::Value =
        serde_yaml::from_slice(&render.user_data["#cloud-config\n".len()..]).expect("yaml");
    let mapping = value.as_mapping().expect("mapping");
    assert_eq!(
        mapping
            .get(serde_yaml::Value::from("resize_rootfs"))
            .and_then(serde_yaml::Value::as_bool),
        Some(false)
    );
    assert_eq!(
        mapping
            .get(serde_yaml::Value::from("hostname"))
            .and_then(serde_yaml::Value::as_str),
        Some("custom")
    );
}

#[test]
fn default_user_data_is_exact() {
    assert_eq!(
        compose_user_data("KEY", None).expect("user data"),
        "#cloud-config\ndisable_root: true\ngrowpart:\n  devices:\n  - /\n  mode: auto\nresize_rootfs: true\nssh_pwauth: false\nusers:\n- default\n- name: ubuntu\n  ssh_authorized_keys:\n  - KEY\n  sudo: ALL=(ALL) NOPASSWD:ALL\n"
    );
}

#[test]
fn override_is_merged_key_by_key() {
    let text = compose_user_data("KEY", Some(("f", "growpart: {mode: off}\npackages: [a]\n")))
        .expect("user data");
    assert!(text.contains("growpart:\n  devices:\n  - /\n  mode: off\n"));
    assert!(text.ends_with("packages:\n- a\n"));
}

#[test]
fn mappings_are_merged_and_others_replaced() {
    assert_eq!(merged("{a: 1, b: {c: 2, d: 3}}", "{b: {c: 4}, e: 5}"), "a: 1\nb:\n  c: 4\n  d: 3\ne: 5\n");
    assert_eq!(merged("{a: [1, 2]}", "{a: [3]}"), "a:\n- 3\n");
    assert_eq!(merged("{a: {b: 1}}", "{a: 2}"), "a: 2\n");
    assert_eq!(merged("{a: 2}", "{a: {b: 1}}"), "a:\n  b: 1\n");
    assert_eq!(merged("[1]", "{a: 1}"), "a: 1\n");
    assert_eq!(merged("{a: 1}", "null"), "null\n");
    assert_eq!(merged("{a: 1}", "{}"), "a: 1\n");
}

#[test]
fn keys_of_any_kind_are_matched() {
    assert_eq!(merged("{1: a, true: b}", "{true: c, 1: d, 1.0: e}"), "1: d\ntrue: c\n1.0: e\n");
    assert_eq!(merged("{{x: 1, y: 2}: a}", "{{y: 2, x: 1}: b}"), "? x: 1\n  y: 2\n: b\n");
}

#[test]
fn merging_twice_is_merging_once() {
    let over = "{b: {c: 4}, e: {f: [1]}}";
    let once = merge_yaml(yaml("{a: 1, b: {c: 2, d: 3}}"), yaml(over));
    let twice = merge_yaml(once.clone(), yaml(over));
    assert_eq!(once, twice);
}

#[test]
fn override_must_be_readable() {
    let error = read_cloud_config_yaml("/f.yaml", "a: [").expect_err("fails");
    assert_eq!(error.to_string(), "parse cloud-init YAML from /f.yaml");
    assert!(error.cause.is_some());
    let error = accept_override("/f", Err("why".to_string())).expect_err("fails");
    assert_eq!(error.cause, Some("why".to_string()));
    assert!(render_cloud_init("n", "k", Some(("/f", "a: [")), Ok(None)).is_err());
}

#[test]
fn network_configuration_must_be_readable() {
    let unread = || Err(Error::new("no such file".to_string()));
    let error = render_cloud_init("n", "k", None, unread()).expect_err("fails");
    assert_eq!(error.to_string(), "no such file");
    let error = render_cloud_init("n", "k", Some(("/f", "- a\n")), unread()).expect_err("fails");
    assert_eq!(
        error.to_string(),
        "cloud-init user-data override must be a YAML mapping"
    );
    let render = render_cloud_init("n", "k", None, Ok(Some(b"version: 2\n".to_vec())))
        .expect("render");
    assert_eq!(render.network_config, Some(b"version: 2\n".to_vec()));
    assert_eq!(render.clone(), render);
}

#[test]
fn override_must_be_a_mapping() {
    let error = read_cloud_config_yaml("/f.yaml", "#cloud-config\n- a\n").expect_err("fails");
    assert_eq!(
        error.to_string(),
        "cloud-init user-data override must be a YAML mapping"
    );
    assert_eq!(error.cause, None);
    assert!(accept_override("/f", Ok(yaml("{a: 1}"))).is_ok());
}

#[test]
fn header_is_put_before_what_was_written() {
    assert_eq!(
        with_header(Ok("a: 1\n".to_string())).expect("text"),
        "#cloud-config\na: 1\n"
    );
    assert_eq!(
        with_header(Err("why".to_string())).expect_err("fails").to_string(),
        "why"
    );
}

#[test]
fn machine_is_told_its_name_and_checksums_are_kept() {
    let render = assemble("dev", "abc", Some(vec![]));
    assert_eq!(
        render,
        CloudInitRender {
            user_data: b"abc".to_vec(),
            meta_data: b"instance-id: hardpass-dev\nlocal-hostname: dev\n".to_vec(),
            network_config: Some(vec![]),
            user_data_sha256: "ba7816bf8f01cfea414140de5dae2223b00361a396177a9cb410ff61f20015ad"
                .to_string(),
            network_config_sha256: Some(
                "e3b0c44298fc1c149afbf4c8996fb92427ae41e4649b934ca495991b7852b855".to_string()
            ),
        }
    );
    assert_eq!(assemble("dev", "abc", None).network_config_sha256, None);
}

#[test]
fn seed_image_has_room_for_its_files() {
    let small = assemble("dev", "abc", None);
    assert_eq!(seed_image_size(&small), 2 * 1024 * 1024);
    let names: Vec<&str> = seed_files(&small).iter().map(|file| file.name).collect();
    assert_eq!(names, vec!["user-data", "meta-data"]);

    let large = CloudInitRender {
        user_data: vec![b'u'; 3 * 1024 * 1024],
        meta_data: b"instance-id: hardpass-dev\nlocal-hostname: dev\n".to_vec(),
        network_config: Some(vec![b'n'; 3 * 1024 * 1024]),
        user_data_sha256: "abc".into(),
        network_config_sha256: Some("def".into()),
    };
    let payload = (6 * 1024 * 1024 + large.meta_data.len()) as u64;
    assert_eq!(seed_image_size(&large), payload + 1024 * 1024);
    let files = seed_files(&large);
    assert_eq!(files.len(), 3);
    assert_eq!(files[2].name, "network-config");
    assert_eq!(files[2].payload.len(), 3 * 1024 * 1024);
    assert_eq!(&seed_label(), b"CIDATA     ");
}
