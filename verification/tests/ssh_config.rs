use hardpass::os_text::path_bytes;
use hardpass::os_text::path_text;
use hardpass::ssh_config::first_host_or_match_offset;
use hardpass::ssh_config::install_managed_include;
use hardpass::ssh_config::is_scoped_ssh_directive;
use hardpass::ssh_config::remove_hardpass_integration;
use hardpass::ssh_config::render_managed_include;
use hardpass::ssh_config::require_home;
use hardpass::ssh_config::ssh_config_quote_path;
use hardpass::ssh_config::SshAliasEntry;
use hardpass::ssh_config::SshConfigManager;
use hardpass::ssh_config::MANAGED_HEADER;
use hardpass::ssh_config::MANAGED_INCLUDE_LINE;

fn entry(alias: &str, port: u16, identity_file: &str) -> SshAliasEntry {
    SshAliasEntry {
        alias: alias.to_string(),
        host: "127.0.0.1".to_string(),
        port,
        user: "ubuntu".to_string(),
        identity_file: identity_file.to_string(),
    }
}

#[test]
fn install_managed_include_inserts_into_empty_config() {
    let content = install_managed_include("");
    assert_eq!(content, format!("{MANAGED_INCLUDE_LINE}\n"));
}

#[test]
fn install_managed_include_replaces_existing_block_idempotently() {
    let initial = "# comment\n\n# >>> hardpass managed ssh include v1 >>>\nInclude ~/.ssh/old\n# <<< hardpass managed ssh include v1 <<<\n";
    let content = install_managed_include(initial);
    assert_eq!(content.matches(MANAGED_INCLUDE_LINE).count(), 1);
    assert_eq!(install_managed_include(&content), content);
}

#[test]
fn install_managed_include_places_include_before_first_host_block() {
    let initial = "# Added by OrbStack\nInclude ~/.orbstack/ssh/config\nInclude ~/.ssh/feathervm/config\n\nHost *.example.com\n  User ubuntu\n";
    let content = install_managed_include(initial);
    let at = content
        .find(MANAGED_INCLUDE_LINE)
        .expect("hardpass include");
    let host = content.find("Host *.example.com").expect("host block");
    assert!(
        at < host,
        "hardpass include must be before first Host block"
    );
    assert!(content.contains("Include ~/.orbstack/ssh/config"));
    assert!(content.contains("Include ~/.ssh/feathervm/config"));
}

#[test]
fn install_managed_include_relocates_existing_block_out_of_host_scope() {
    let initial = "Host *.example.com\n  User ubuntu\n\n# >>> hardpass managed ssh include v1 >>>\nInclude ~/.ssh/old\n# <<< hardpass managed ssh include v1 <<<\n";
    let content = install_managed_include(initial);
    let at = content
        .find(MANAGED_INCLUDE_LINE)
        .expect("hardpass include");
    let host = content.find("Host *.example.com").expect("host block");
    assert!(
        at < host,
        "hardpass include must be before first Host block"
    );
    assert_eq!(content.matches(MANAGED_INCLUDE_LINE).count(), 1);
}

#[test]
fn install_managed_include_relocates_existing_plain_include() {
    let initial = "Host *.example.com\n  User ubuntu\n\nInclude ~/.hardpass/ssh/config\n";
    let content = install_managed_include(initial);
    let at = content
        .find(MANAGED_INCLUDE_LINE)
        .expect("hardpass include");
    let host = content.find("Host *.example.com").expect("host block");
    assert!(at < host);
    assert_eq!(content.matches(MANAGED_INCLUDE_LINE).count(), 1);
}

#[test]
fn render_managed_include_sorts_aliases_and_quotes_identity() {
    let rendered = render_managed_include(&[
        entry("beta", 40222, "/tmp/path with spaces/id_ed25519"),
        entry("alpha", 40221, "/tmp/id_ed25519"),
    ]);
    let alpha = rendered.find("Host alpha").expect("alpha host");
    let beta = rendered.find("Host beta").expect("beta host");
    assert!(alpha < beta);
    assert!(rendered.contains("IdentityFile \"/tmp/path with spaces/id_ed25519\""));
}

#[test]
fn install_sets_the_line_off_from_both_sides() {
    let content = install_managed_include("Include other\n\n\nHost a\n  Port 1\nMatch all\n");
    assert_eq!(
        content,
        "Include other\n\nInclude ~/.hardpass/ssh/config\n\nHost a\n  Port 1\nMatch all\n"
    );
    assert_eq!(install_managed_include(&content), content);
}

#[test]
fn install_ends_a_last_line_that_was_not_ended() {
    assert_eq!(
        install_managed_include("Compression yes"),
        "Compression yes\n\nInclude ~/.hardpass/ssh/config\n"
    );
}

#[test]
fn install_takes_every_old_include_out() {
    let initial = "  Include ~/.ssh/config.d/hardpass.conf  \nHost a\nInclude ~/.hardpass/ssh/config\r\n";
    assert_eq!(
        install_managed_include(initial),
        "Include ~/.hardpass/ssh/config\n\nHost a\n"
    );
}

#[test]
fn remove_says_whether_anything_was_found() {
    assert_eq!(
        remove_hardpass_integration("Host a\n"),
        ("Host a\n".to_string(), false)
    );
    assert_eq!(
        remove_hardpass_integration("Include ~/.hardpass/ssh/config\nHost a"),
        ("Host a".to_string(), true)
    );
    let open_ended = "a\n# >>> hardpass managed ssh include v1 >>>\nb\nc\n";
    assert_eq!(
        remove_hardpass_integration(open_ended),
        ("a\n".to_string(), true)
    );
}

#[test]
fn removing_twice_is_removing_once() {
    let (once, _) = remove_hardpass_integration("x\nInclude ~/.hardpass/ssh/config\ny\n");
    assert_eq!(once, "x\ny\n");
    assert_eq!(remove_hardpass_integration(&once), (once.clone(), false));
}

#[test]
fn scoped_directives_are_told_from_others() {
    assert!(is_scoped_ssh_directive("Host a"));
    assert!(is_scoped_ssh_directive("  hOsT\ta\n"));
    assert!(is_scoped_ssh_directive("match all"));
    assert!(!is_scoped_ssh_directive("HostName a"));
    assert!(!is_scoped_ssh_directive("# Host a"));
    assert!(!is_scoped_ssh_directive("Host=a"));
    assert!(!is_scoped_ssh_directive("   \n"));
    assert!(!is_scoped_ssh_directive(""));
}

#[test]
fn offset_is_that_of_the_first_section() {
    assert_eq!(first_host_or_match_offset("a\nb\nHost c\n"), Some(4));
    assert_eq!(first_host_or_match_offset("é\nHost c\n"), Some(3));
    assert_eq!(first_host_or_match_offset("a\nb\n"), None);
    assert_eq!(first_host_or_match_offset(""), None);
}

#[test]
fn empty_generated_file_has_a_header_only() {
    assert_eq!(render_managed_include(&[]), MANAGED_HEADER);
}

#[test]
fn generated_file_is_rendered_exactly() {
    let rendered = render_managed_include(&[
        entry("b", 2, "/k2"),
        entry("a", 1, "/k1"),
        entry("a", 3, "/k3"),
    ]);
    let section = |alias: &str, port: u16, key: &str| {
        format!(
            "Host {alias}\n    HostName 127.0.0.1\n    Port {port}\n    User ubuntu\n    IdentityFile \"{key}\"\n    IdentitiesOnly yes\n    StrictHostKeyChecking no\n    UserKnownHostsFile /dev/null\n    LogLevel ERROR\n"
        )
    };
    assert_eq!(
        rendered,
        format!(
            "# managed by hardpass; edits will be overwritten\n\n{}\n{}\n{}",
            section("a", 1, "/k1"),
            section("a", 3, "/k3"),
            section("b", 2, "/k2")
        )
    );
}

#[test]
fn quotes_and_backslashes_in_paths_are_escaped() {
    assert_eq!(ssh_config_quote_path("/a b"), "\"/a b\"");
    assert_eq!(ssh_config_quote_path("/a\"b\\c"), "\"/a\\\"b\\\\c\"");
}

#[test]
fn files_are_below_the_home_directory() {
    let manager = SshConfigManager::new("/home/me".to_string());
    assert_eq!(manager.main_config_path(), "/home/me/.ssh/config");
    assert_eq!(manager.managed_include_path(), "/home/me/.hardpass/ssh/config");
    assert_eq!(
        manager.private_dirs(),
        vec![
            "/home/me/.ssh".to_string(),
            "/home/me/.hardpass".to_string(),
            "/home/me/.hardpass/ssh".to_string()
        ]
    );
}

#[test]
fn home_directory_of_the_user_is_asked_for() {
    match (SshConfigManager::from_home_dir(), dirs::home_dir()) {
        (Ok(manager), Some(home)) => assert_eq!(
            path_bytes(&manager.clone().main_config_path()),
            home.join(".ssh/config").into_os_string().into_encoded_bytes()
        ),
        (Err(error), None) => {
            assert_eq!(error.to_string(), "unable to determine home directory")
        }
        _ => panic!("the two disagree"),
    }
}

#[test]
fn unknown_home_directory_is_an_error() {
    let error = require_home(None).expect_err("should fail");
    assert_eq!(error.to_string(), "unable to determine home directory");
    assert_eq!(require_home(Some("/h".to_string())).expect("home"), "/h");
    let error = SshConfigManager::from_home(None).expect_err("should fail");
    assert_eq!(error.to_string(), "unable to determine home directory");
    let manager = SshConfigManager::from_home(Some("/h".to_string())).expect("manager");
    assert_eq!(manager.main_config_path(), "/h/.ssh/config");
}

#[test]
fn line_leads_to_the_generated_file() {
    for home in ["/home/me", "/root/", ""] {
        let manager = SshConfigManager::new(home.to_string());
        let path = MANAGED_INCLUDE_LINE.strip_prefix("Include ").expect("path");
        let rest = path.strip_prefix("~/").expect("home");
        assert_eq!(
            std::path::Path::new(home).join(rest).display().to_string(),
            manager.managed_include_path()
        );
    }
}

#[test]
fn other_lines_are_kept_in_order() {
    let initial = "a\n\n\nb\nInclude ~/.hardpass/ssh/config\n\nHost x\n\n  c\n\nMatch y\n  d";
    let updated = install_managed_include(initial);
    let said = |text: &str| -> Vec<String> {
        text.lines()
            .filter(|line| !line.is_empty() && *line != MANAGED_INCLUDE_LINE)
            .map(|line| line.to_string())
            .collect()
    };
    assert_eq!(said(&updated), said(initial));
    assert_eq!(install_managed_include(&updated), updated);
}

#[test]
fn generated_file_has_one_section_per_alias_in_order() {
    let entries = vec![
        entry("web", 2203, "/k"),
        entry("Dev", 2201, "/k\\\"x"),
        entry("dev", 2202, "/k"),
        entry("de", 2204, "/k"),
    ];
    let content = render_managed_include(&entries);
    let hosts: Vec<&str> = content
        .lines()
        .filter_map(|line| line.strip_prefix("Host "))
        .collect();
    assert_eq!(hosts, vec!["Dev", "de", "dev", "web"]);
    let mut other = entries.clone();
    other.reverse();
    assert_eq!(render_managed_include(&other), content);
    other.swap(0, 2);
    assert_eq!(render_managed_include(&other), content);
}

#[test]
fn lines_of_any_script_stay_before_the_first_section() {
    let initial = "# é and 語\n\nHost ünder\n  User ü\n";
    assert_eq!(
        install_managed_include(initial),
        format!("# é and 語\n\n{MANAGED_INCLUDE_LINE}\n\nHost ünder\n  User ü\n")
    );
}

#[test]
fn home_directory_of_any_bytes_is_kept() {
    let home = path_text(b"/home/\xffm\xc3\xa9");
    let manager = SshConfigManager::from_home(Some(home)).expect("manager");
    assert_eq!(
        path_bytes(&manager.main_config_path()),
        b"/home/\xffm\xc3\xa9/.ssh/config"
    );
    assert_eq!(
        path_bytes(&manager.managed_include_path()),
        b"/home/\xffm\xc3\xa9/.hardpass/ssh/config"
    );
}
