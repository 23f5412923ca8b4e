use hardpass::images::format_bytes;
use hardpass::images::image_config_for;
use hardpass::images::parse_sha256s;
use hardpass::images::CachedImageMetadata;
use hardpass::images::DownloadProgress;
use hardpass::images::ImageSearch;
use hardpass::images::ImageStep;
use hardpass::images::UBUNTU_RELEASES_BASE_URL;
use hardpass::state::sha256_hex;
use hardpass::state::GuestArch;

fn search() -> ImageSearch {
    ImageSearch::ensure_image_with_base_url(
        "/cache",
        "24.04",
        GuestArch::Amd64,
        "https://example.invalid/releases/",
    )
}

fn shown_by_float(bytes: u64) -> String {
    let units = ["B", "KiB", "MiB", "GiB", "TiB"];
    let mut value = bytes as f64;
    let mut unit = 0;
    while value >= 1024.0 && unit + 1 < units.len() {
        value /= 1024.0;
        unit += 1;
    }
    if unit == 0 {
        format!("{} {}", bytes, units[unit])
    } else {
        format!("{value:.1} {}", units[unit])
    }
}

#[test]
fn constructs_expected_image_url() {
    let image = image_config_for(
        "https://example.invalid/releases",
        "24.04",
        GuestArch::Arm64,
        None,
    );
    assert_eq!(
        image.url,
        "https://example.invalid/releases/24.04/release/ubuntu-24.04-server-cloudimg-arm64.img"
    );
}

#[test]
fn parses_sha256_manifest_line() {
    let manifest = "abc123 *ubuntu-24.04-server-cloudimg-arm64.img\n";
    assert_eq!(
        parse_sha256s(manifest, "ubuntu-24.04-server-cloudimg-arm64.img").expect("sha"),
        "abc123"
    );
}

#[test]
fn formats_bytes_for_progress_output() {
    assert_eq!(format_bytes(999), "999 B");
    assert_eq!(format_bytes(1024), "1.0 KiB");
    assert_eq!(format_bytes(5 * 1024 * 1024), "5.0 MiB");
}

#[test]
fn sizes_are_shown_as_doubles_would_be() {
    let mut values: Vec<u64> = vec![
        0,
        1,
        1023,
        1024,
        1025,
        1075,
        1076,
        1077,
        1280,
        1331,
        1536,
        1792,
        1048575,
        1048576,
        1099511627775,
        1099511627776,
        u64::MAX,
        u64::MAX - 1,
        u64::MAX - 1023,
        u64::MAX - 1024,
        u64::MAX - 1025,
        9007199254740991,
        9007199254740992,
        9007199254740993,
        9007199254740995,
        18014398509481985,
        18014398509481986,
        18014398509481987,
    ];
    for tenth in 0..200u64 {
        values.push(1024 + tenth * 256);
        values.push(1024 * 1024 + tenth * 52429);
        values.push((1u64 << 40) + tenth * 54975581389);
        values.push((1u64 << 63) + tenth * 1023);
    }
    let mut state: u64 = 88172645463325252;
    for _ in 0..5000 {
        state ^= state << 13;
        state ^= state >> 7;
        state ^= state << 17;
        values.push(state);
        values.push(state >> 20);
        values.push(state >> 40);
    }
    for value in values {
        assert_eq!(format_bytes(value), shown_by_float(value), "{value}");
    }
}

#[test]
fn halves_are_rounded_to_even_tenths() {
    // 1.25 and 1.75 KiB are exact, so that the tenth is a tie.
    assert_eq!(format_bytes(1280), "1.2 KiB");
    assert_eq!(format_bytes(1792), "1.8 KiB");
    assert_eq!(format_bytes(u64::MAX), "16777216.0 TiB");
}

#[test]
fn image_of_a_release_is_described() {
    let image = image_config_for("https://h//", "22.04", GuestArch::Amd64, Some("s".to_string()));
    assert_eq!(image.release, "22.04");
    assert_eq!(image.filename, "ubuntu-22.04-server-cloudimg-amd64.img");
    assert_eq!(image.sha256_url, "https://h/22.04/release/SHA256SUMS");
    assert_eq!(image.sha256, "s");
    assert_eq!(image_config_for("b", "r", GuestArch::Amd64, None).sha256, "");
}

#[test]
fn manifest_lines_are_searched_in_order() {
    let manifest = "\n  \nnothing\na1  other.img\r\nb2 *x.img\nc3 x.img\n";
    assert_eq!(parse_sha256s(manifest, "x.img").expect("sha"), "b2");
    assert_eq!(parse_sha256s(manifest, "other.img").expect("sha"), "a1");
    let error = parse_sha256s(manifest, "y.img").expect_err("fails");
    assert_eq!(error.to_string(), "missing checksum entry for y.img");
}

#[test]
fn image_is_looked_for_below_the_cache() {
    let search = search();
    assert_eq!(search.image_dir, "/cache/24.04/amd64");
    assert_eq!(
        search.local_path,
        "/cache/24.04/amd64/ubuntu-24.04-server-cloudimg-amd64.img"
    );
    assert_eq!(search.metadata_path, "/cache/24.04/amd64/image.json");
    assert_eq!(search.lock_path(), "/cache/24.04/amd64/.lock");
    assert_eq!(
        search.download_path(),
        "/cache/24.04/amd64/ubuntu-24.04-server-cloudimg-amd64.download"
    );
    let standard = ImageSearch::ensure_image("/cache", "24.04", GuestArch::Amd64);
    assert!(standard.config.url.starts_with(UBUNTU_RELEASES_BASE_URL));
}

#[test]
fn verified_image_is_recorded_and_found_again() {
    let sha = sha256_hex(b"fake-qcow");
    let manifest = format!("{sha} *ubuntu-24.04-server-cloudimg-amd64.img\n");
    let mut first = search();
    assert_eq!(
        first.look_up(None, false),
        ImageStep::FetchManifest(
            "https://example.invalid/releases/24.04/release/SHA256SUMS".to_string()
        )
    );
    assert_eq!(
        first.manifest_fetched(&manifest, false),
        ImageStep::Download(
            "https://example.invalid/releases/24.04/release/ubuntu-24.04-server-cloudimg-amd64.img"
                .to_string()
        )
    );
    let (metadata, image) = match first.checksum_computed(&sha) {
        ImageStep::Record(metadata, image) => (metadata, image),
        other => panic!("unexpected step: {other:?}"),
    };
    assert_eq!(image.config.sha256, sha);
    match search().look_up(Some(metadata), true) {
        ImageStep::Ready(found) => assert_eq!(found, image),
        other => panic!("unexpected step: {other:?}"),
    }
}

#[test]
fn image_that_is_there_is_not_fetched_again() {
    let mut search = search();
    assert_eq!(
        search.manifest_fetched("aa *ubuntu-24.04-server-cloudimg-amd64.img", true),
        ImageStep::Verify
    );
    match search.checksum_computed("bb") {
        ImageStep::Fail(error) => assert_eq!(
            error.to_string(),
            "checksum mismatch for /cache/24.04/amd64/ubuntu-24.04-server-cloudimg-amd64.img: expected aa, got bb"
        ),
        other => panic!("unexpected step: {other:?}"),
    }
}

#[test]
fn record_of_another_image_does_not_count() {
    let search = search();
    let metadata = |url: &str| CachedImageMetadata {
        url: url.to_string(),
        sha256_url: search.config.sha256_url.clone(),
        filename: search.config.filename.clone(),
        sha256: "aa".to_string(),
    };
    assert!(matches!(
        search.look_up(Some(metadata("elsewhere")), true),
        ImageStep::FetchManifest(_)
    ));
    assert!(matches!(
        search.look_up(Some(metadata(&search.config.url)), false),
        ImageStep::FetchManifest(_)
    ));
    assert!(matches!(
        search.look_up(Some(metadata(&search.config.url)), true),
        ImageStep::Ready(_)
    ));
}

#[test]
fn manifest_without_the_image_is_an_error() {
    let mut search = search();
    match search.manifest_fetched("", false) {
        ImageStep::Fail(error) => assert_eq!(
            error.to_string(),
            "missing checksum entry for ubuntu-24.04-server-cloudimg-amd64.img"
        ),
        other => panic!("unexpected step: {other:?}"),
    }
}

#[test]
fn progress_is_shown_on_a_terminal_only() {
    let quiet = DownloadProgress::new("u", "/d/f.img", Some(10), false);
    assert_eq!(quiet.render(false, 1, "0.0"), None);
    let mut quiet = quiet;
    assert!(!quiet.advance(5, 1_000_000_000));
    assert_eq!(quiet.downloaded_bytes, 5);
}

#[test]
fn progress_lines_are_exact() {
    let mut progress = DownloadProgress::new("u", "/d/f.img", Some(2048), true);
    assert_eq!(progress.label, "f.img");
    assert!(!progress.advance(512, 124_999_999));
    assert!(progress.advance(512, 125_000_000));
    assert!(!progress.advance(0, 249_999_999));
    assert_eq!(
        progress.render(false, 2048, " 50.0"),
        Some("\r\x1b[2KDownloading f.img:  50.0% (1.0 KiB/2.0 KiB) at 2.0 KiB/s".to_string())
    );
    assert_eq!(
        progress.render(true, 999, ""),
        Some("\r\x1b[2KDownloaded f.img: 100% (1.0 KiB/2.0 KiB) at 999 B/s\n".to_string())
    );
}

#[test]
fn progress_of_unknown_length_has_no_share() {
    let progress = DownloadProgress::new("http://u", "/", Some(0), true);
    assert_eq!(progress.label, "http://u");
    assert_eq!(
        progress.render(false, 0, "x"),
        Some("\r\x1b[2KDownloading http://u: 0 B at 0 B/s".to_string())
    );
    let progress = DownloadProgress::new("http://u", "/", None, true);
    assert_eq!(
        progress.render(true, 0, "x"),
        Some("\r\x1b[2KDownloaded http://u: 0 B at 0 B/s\n".to_string())
    );
}

#[test]
fn images_of_different_releases_are_apart() {
    let name = |release: &str, arch: GuestArch| image_config_for("u", release, arch, None).filename;
    assert_ne!(name("24.04", GuestArch::Amd64), name("24.04", GuestArch::Arm64));
    assert_ne!(name("24.04", GuestArch::Amd64), name("22.04", GuestArch::Amd64));
}
