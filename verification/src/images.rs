//! Cloud images: where they come from, which ones are cached, and what is
//! shown while one is fetched.

use vstd::prelude::*;

use crate::error::Error;
use crate::path::extension_set;
use crate::path::file_name;
use crate::path::file_name_of;
use crate::path::join;
use crate::path::joined_path;
use crate::path::with_extension;
use crate::state::GuestArch;
use crate::state::ImageConfig;
use crate::text::decimal;
use crate::text::lines;
use crate::text::number;
use crate::text::opt_text;
use crate::text::same_text;
use crate::text::split_at_first;
use crate::text::split_lines;
use crate::text::split_once;
use crate::text::texts;
use crate::text::trim;
use crate::text::trim_end_of;
use crate::text::trim_start_of;
use crate::text::trimmed;
use crate::text::trimmed_end_of;
use crate::text::trimmed_start_of;

verus! {

/// Where Ubuntu publishes its images.
pub const UBUNTU_RELEASES_BASE_URL: &'static str = "https://cloud-images.ubuntu.com/releases";

/// How many nanoseconds lie between two updates of the progress line.
pub const RENDER_INTERVAL_NANOS: u64 = 125_000_000;

/// An image that is there and was verified.
#[derive(Debug, Clone, PartialEq, Eq)]
pub struct CachedImage {
    pub config: ImageConfig,
    pub local_path: String,
}

/// What is recorded beside an image once it was verified.
#[derive(Debug, Clone, PartialEq, Eq)]
pub struct CachedImageMetadata {
    pub url: String,
    pub sha256_url: String,
    pub filename: String,
    pub sha256: String,
}

// ---------------------------------------------------------------------------
// Names and checksums

/// The file name of an image.
pub open spec fn image_filename(release: Seq<char>, arch: GuestArch) -> Seq<char> {
    "ubuntu-"@ + release + "-server-cloudimg-"@ + arch.spec_name() + ".img"@
}

/// Where the files of a release are published.
pub open spec fn release_url(base_url: Seq<char>, release: Seq<char>) -> Seq<char> {
    trimmed_end_of(base_url, '/') + "/"@ + release + "/release"@
}

/// `config` is that of the image of `release` for `arch` below `base_url`.
pub open spec fn is_image_of(
    config: ImageConfig,
    base_url: Seq<char>,
    release: Seq<char>,
    arch: GuestArch,
) -> bool {
    &&& config.release@ == release
    &&& config.arch == arch
    &&& config.url@ == release_url(base_url, release) + "/"@ + image_filename(release, arch)
    &&& config.sha256_url@ == release_url(base_url, release) + "/SHA256SUMS"@
    &&& config.filename@ == image_filename(release, arch)
}

/// The image of `release` for `arch` below `base_url`.
pub fn image_config_for(
    base_url: &str,
    release: &str,
    arch: GuestArch,
    sha256: Option<String>,
) -> (config: ImageConfig)
    ensures
        is_image_of(config, base_url@, release@, arch),
        config.sha256@ == (match sha256 {
            Some(sha256) => sha256@,
            None => Seq::empty(),
        }),
{
    let filename = "ubuntu-".to_owned().concat(release).concat("-server-cloudimg-").concat(
        arch.ubuntu_arch(),
    ).concat(".img");
    let base = trim_end_of(base_url, '/').concat("/").concat(release).concat("/release");
    ImageConfig {
        release: release.to_owned(),
        arch,
        url: base.as_str().to_owned().concat("/").concat(filename.as_str()),
        sha256_url: base.concat("/SHA256SUMS"),
        filename,
        sha256: match sha256 {
            Some(sha256) => sha256,
            None => String::new(),
        },
    }
}

/// The checksum and the file name in a line of a manifest, if it has both.
pub open spec fn manifest_entry(line: Seq<char>) -> Option<(Seq<char>, Seq<char>)> {
    match split_at_first(trimmed(line), ' ') {
        Some((sha, name)) => Some((sha, trimmed_start_of(trimmed(name), '*'))),
        None => None,
    }
}

/// The checksum of `filename` in the first of `all` that has one.
pub open spec fn first_checksum(all: Seq<Seq<char>>, filename: Seq<char>) -> Option<Seq<char>>
    decreases all.len(),
{
    if all.len() == 0 {
        None
    } else {
        match manifest_entry(all.first()) {
            Some((sha, name)) => if name == filename {
                Some(sha)
            } else {
                first_checksum(all.drop_first(), filename)
            },
            None => first_checksum(all.drop_first(), filename),
        }
    }
}

/// The checksum of `filename` in the manifest `payload`.
pub open spec fn checksum_in(payload: Seq<char>, filename: Seq<char>) -> Option<Seq<char>> {
    first_checksum(lines(payload), filename)
}

/// What is said where a manifest has no checksum.
pub open spec fn no_checksum_message(filename: Seq<char>) -> Seq<char> {
    "missing checksum entry for "@ + filename
}

fn read_entry(line: &str) -> (entry: Option<(String, String)>)
    ensures
        crate::text::opt_pair(entry) == manifest_entry(line@),
{
    let text = trim(line);
    match split_once(text.as_str(), ' ') {
        Some((sha, name)) => Some((sha, trim_start_of(trim(name.as_str()).as_str(), '*'))),
        None => None,
    }
}

/// The checksum of `filename` in the manifest `payload`.
pub fn parse_sha256s(payload: &str, filename: &str) -> (result: Result<String, Error>)
    ensures
        match result {
            Ok(sha) => checksum_in(payload@, filename@) == Some(sha@),
            Err(error) => checksum_in(payload@, filename@) is None && error.message@
                == no_checksum_message(filename@) && error.cause is None,
        },
{
    let all = split_lines(payload);
    let ghost seen = texts(all@);
    assert(seen.skip(0) =~= seen);
    for i in 0..all.len()
        invariant
            seen == texts(all@),
            seen == lines(payload@),
            first_checksum(seen.skip(i as int), filename@) == checksum_in(payload@, filename@),
    {
        proof {
            assert(seen.skip(i as int).first() == all@[i as int]@);
            assert(seen.skip(i as int).drop_first() =~= seen.skip(i + 1));
        }
        if let Some((sha, name)) = read_entry(all[i].as_str()) {
            if same_text(name.as_str(), filename) {
                return Ok(sha);
            }
        }
    }
    assert(seen.skip(seen.len() as int).len() == 0);
    Err(Error::new("missing checksum entry for ".to_owned().concat(filename)))
}

// ---------------------------------------------------------------------------
// The cache

/// An image that is being looked for.
#[derive(Debug)]
pub struct ImageSearch {
    pub config: ImageConfig,
    pub image_dir: String,
    pub local_path: String,
    pub metadata_path: String,
}

/// What to do next to get an image.
#[derive(Debug, PartialEq, Eq)]
pub enum ImageStep {
    /// The image is there.
    Ready(CachedImage),
    /// Fetch the manifest from this address.
    FetchManifest(String),
    /// Fetch the image from this address, and compute its checksum.
    Download(String),
    /// Compute the checksum of the image that is there.
    Verify,
    /// Record this, and the image is there.
    Record(CachedImageMetadata, CachedImage),
    /// The image cannot be had.
    Fail(Error),
}

/// What was recorded is about this image.
pub open spec fn is_recorded(metadata: CachedImageMetadata, config: ImageConfig) -> bool {
    metadata.url@ == config.url@ && metadata.sha256_url@ == config.sha256_url@
        && metadata.filename@ == config.filename@
}

/// `config` with the checksum `sha256`.
pub open spec fn with_checksum(config: ImageConfig, sha256: String) -> ImageConfig {
    ImageConfig { sha256, ..config }
}

/// What is said where an image is not what the manifest says.
pub open spec fn mismatch_message(
    path: Seq<char>,
    expected: Seq<char>,
    actual: Seq<char>,
) -> Seq<char> {
    "checksum mismatch for "@ + path + ": expected "@ + expected + ", got "@ + actual
}

/// `step` is what follows in a search where the manifest is `payload`.
pub open spec fn is_manifest_step(
    step: ImageStep,
    before: ImageSearch,
    after: ImageSearch,
    payload: Seq<char>,
    has_file: bool,
) -> bool {
    match checksum_in(payload, before.config.filename@) {
        None => {
            &&& after == before
            &&& step matches ImageStep::Fail(error) && error.message@ == no_checksum_message(
                before.config.filename@,
            ) && error.cause is None
        },
        Some(sha) => {
            &&& after.config.sha256@ == sha
            &&& after.config == with_checksum(before.config, after.config.sha256)
            &&& after.image_dir == before.image_dir
            &&& after.local_path == before.local_path
            &&& after.metadata_path == before.metadata_path
            &&& step == (if has_file {
                ImageStep::Verify
            } else {
                ImageStep::Download(before.config.url)
            })
        },
    }
}

/// `step` is what follows in a search where the image has the checksum
/// `actual`.
pub open spec fn is_checksum_step(step: ImageStep, search: ImageSearch, actual: Seq<char>) -> bool {
    if actual == search.config.sha256@ {
        step matches ImageStep::Record(metadata, image) && is_recorded(metadata, search.config)
            && metadata.sha256@ == actual && image == (CachedImage {
            config: search.config,
            local_path: search.local_path,
        })
    } else {
        step matches ImageStep::Fail(error) && error.message@ == mismatch_message(
            search.local_path@,
            search.config.sha256@,
            actual,
        ) && error.cause is None
    }
}

impl ImageSearch {
    /// The search is for the image of `release` for `arch` below `base_url`,
    /// cached below `images_root`.
    pub open spec fn is_for(
        self,
        images_root: Seq<char>,
        release: Seq<char>,
        arch: GuestArch,
        base_url: Seq<char>,
    ) -> bool {
        let dir = joined_path(joined_path(images_root, release), arch.spec_name());
        &&& is_image_of(self.config, base_url, release, arch)
        &&& self.image_dir@ == dir
        &&& self.local_path@ == joined_path(dir, image_filename(release, arch))
        &&& self.metadata_path@ == joined_path(dir, "image.json"@)
    }

    /// Begins to look for the image of `release` for `arch`.
    pub fn ensure_image_with_base_url(
        images_root: &str,
        release: &str,
        arch: GuestArch,
        base_url: &str,
    ) -> (search: ImageSearch)
        ensures
            search.is_for(images_root@, release@, arch, base_url@),
            search.config.sha256@ == Seq::<char>::empty(),
    {
        let config = image_config_for(base_url, release, arch, None);
        let image_dir = join(join(images_root, release).as_str(), arch.ubuntu_arch());
        let local_path = join(image_dir.as_str(), config.filename.as_str());
        let metadata_path = join(image_dir.as_str(), "image.json");
        ImageSearch { config, image_dir, local_path, metadata_path }
    }

    /// Begins to look for the image where Ubuntu publishes it.
    pub fn ensure_image(images_root: &str, release: &str, arch: GuestArch) -> (search: ImageSearch)
        ensures
            search.is_for(images_root@, release@, arch, UBUNTU_RELEASES_BASE_URL@),
            search.config.sha256@ == Seq::<char>::empty(),
    {
        ImageSearch::ensure_image_with_base_url(
            images_root,
            release,
            arch,
            UBUNTU_RELEASES_BASE_URL,
        )
    }

    /// The lock on the directory of the image.
    pub fn lock_path(&self) -> (path: String)
        ensures
            path@ == joined_path(self.image_dir@, ".lock"@),
    {
        join(self.image_dir.as_str(), ".lock")
    }

    /// Where an image is put while it is fetched.
    pub fn download_path(&self) -> (path: String)
        ensures
            path@ == extension_set(self.local_path@, "download"@),
    {
        with_extension(self.local_path.as_str(), "download")
    }

    /// An image is taken from the cache if its file is there and what was
    /// recorded is about this image; or else the manifest is needed.
    pub fn look_up(&self, metadata: Option<CachedImageMetadata>, has_file: bool) -> (step:
        ImageStep)
        ensures
            match metadata {
                Some(metadata) => if has_file && is_recorded(metadata, self.config) {
                    step == ImageStep::Ready(
                        CachedImage {
                            config: with_checksum(self.config, metadata.sha256),
                            local_path: self.local_path,
                        },
                    )
                } else {
                    step == ImageStep::FetchManifest(self.config.sha256_url)
                },
                None => step == ImageStep::FetchManifest(self.config.sha256_url),
            },
    {
        if let Some(metadata) = metadata {
            if has_file && same_text(metadata.url.as_str(), self.config.url.as_str()) && same_text(
                metadata.sha256_url.as_str(),
                self.config.sha256_url.as_str(),
            ) && same_text(metadata.filename.as_str(), self.config.filename.as_str()) {
                return ImageStep::Ready(
                    CachedImage {
                        config: ImageConfig {
                            release: self.config.release.clone(),
                            arch: self.config.arch,
                            url: self.config.url.clone(),
                            sha256_url: self.config.sha256_url.clone(),
                            filename: self.config.filename.clone(),
                            sha256: metadata.sha256,
                        },
                        local_path: self.local_path.clone(),
                    },
                );
            }
        }
        ImageStep::FetchManifest(self.config.sha256_url.clone())
    }

    /// Takes the checksum of the image from the manifest. An image whose file
    /// is there is not fetched again.
    pub fn manifest_fetched(&mut self, payload: &str, has_file: bool) -> (step: ImageStep)
        ensures
            is_manifest_step(step, *old(self), *final(self), payload@, has_file),
    {
        match parse_sha256s(payload, self.config.filename.as_str()) {
            Err(error) => ImageStep::Fail(error),
            Ok(sha) => {
                self.config.sha256 = sha;
                if has_file {
                    ImageStep::Verify
                } else {
                    ImageStep::Download(self.config.url.clone())
                }
            },
        }
    }

    /// Accepts the image if its checksum is the one of the manifest.
    pub fn checksum_computed(&self, actual: &str) -> (step: ImageStep)
        ensures
            is_checksum_step(step, *self, actual@),
    {
        if !same_text(actual, self.config.sha256.as_str()) {
            return ImageStep::Fail(
                Error::new(
                    "checksum mismatch for ".to_owned().concat(self.local_path.as_str()).concat(
                        ": expected ",
                    ).concat(self.config.sha256.as_str()).concat(", got ").concat(actual),
                ),
            );
        }
        ImageStep::Record(
            CachedImageMetadata {
                url: self.config.url.clone(),
                sha256_url: self.config.sha256_url.clone(),
                filename: self.config.filename.clone(),
                sha256: self.config.sha256.clone(),
            },
            CachedImage { config: self.config.clone(), local_path: self.local_path.clone() },
        )
    }
}

/// An image that was not in the cache is accepted only if its checksum is the
/// one that the manifest has for it, and that is the checksum that is recorded
/// and handed on.
pub proof fn law_accepted_image_is_verified(
    before: ImageSearch,
    after: ImageSearch,
    payload: Seq<char>,
    has_file: bool,
    fetched: ImageStep,
    actual: Seq<char>,
    step: ImageStep,
)
    requires
        is_manifest_step(fetched, before, after, payload, has_file),
        !(fetched is Fail),
        is_checksum_step(step, after, actual),
    ensures
        step is Record <==> checksum_in(payload, before.config.filename@) == Some(actual),
        step matches ImageStep::Record(metadata, image) ==> metadata.sha256@ == actual
            && image.config.sha256@ == actual && image.local_path == before.local_path
            && is_recorded(metadata, before.config),
{
}

/// What is recorded of an image counts for every later search for the same
/// image, which looks for the same file.
pub proof fn law_recorded_image_is_found(
    first: ImageSearch,
    later: ImageSearch,
    metadata: CachedImageMetadata,
    images_root: Seq<char>,
    release: Seq<char>,
    arch: GuestArch,
    base_url: Seq<char>,
)
    requires
        first.is_for(images_root, release, arch, base_url),
        later.is_for(images_root, release, arch, base_url),
        is_recorded(metadata, first.config),
    ensures
        is_recorded(metadata, later.config),
        later.local_path@ == first.local_path@,
{
}

/// What was recorded of one image is never taken for another one: the file
/// names of images differ if their releases or architectures do.
pub proof fn law_images_apart(
    left: ImageConfig,
    right: ImageConfig,
    metadata: CachedImageMetadata,
    base_url: Seq<char>,
)
    requires
        is_image_of(left, base_url, left.release@, left.arch),
        is_image_of(right, base_url, right.release@, right.arch),
        is_recorded(metadata, left),
        is_recorded(metadata, right),
    ensures
        left.release@ == right.release@,
        left.arch == right.arch,
{
    reveal_strlit("ubuntu-");
    reveal_strlit("-server-cloudimg-");
    reveal_strlit("amd64");
    reveal_strlit("arm64");
    reveal_strlit(".img");
    let a = image_filename(left.release@, left.arch);
    let b = image_filename(right.release@, right.arch);
    assert(a == b);
    let n = a.len();
    assert(left.arch.spec_name().len() == 5 && right.arch.spec_name().len() == 5);
    assert(left.release@.len() == right.release@.len());
    assert(a[n - 8] == left.arch.spec_name()[1]);
    assert(b[n - 8] == right.arch.spec_name()[1]);
    assert forall|i: int| 0 <= i < left.release@.len() implies left.release@[i]
        == right.release@[i] by {
        assert(a[i + 7] == left.release@[i]);
        assert(b[i + 7] == right.release@[i]);
    }
    assert(left.release@ =~= right.release@);
}

// ---------------------------------------------------------------------------
// Sizes

/// `a / b`, rounded to the nearest whole number, and to an even one where two
/// are as near.
pub open spec fn nearest(a: nat, b: nat) -> nat {
    let low = a / b;
    let rest = a % b;
    if 2 * rest > b || (2 * rest == b && low % 2 == 1) {
        low + 1
    } else {
        low
    }
}

/// How far apart the numbers are that a double holds about `n`: `scale`, or
/// twice that for each time that `limit` must be doubled to exceed `n`.
pub open spec fn grain(n: nat, limit: nat, scale: nat) -> nat
    decreases
            if n >= limit {
                n - limit + 1
            } else {
                0
            },
{
    if n < limit || limit == 0 {
        scale
    } else {
        grain(n, 2 * limit, 2 * scale)
    }
}

/// The number with 53 binary digits that is nearest to `n`.
pub open spec fn as_double(n: nat) -> nat {
    let scale = grain(n, 0x20_0000_0000_0000, 1);
    nearest(n, scale) * scale
}

/// The unit that `value` bytes are shown in: 0 for bytes, and one more for
/// each factor of 1024, up to 4.
pub open spec fn unit_of(value: nat) -> nat {
    if value < 1024 {
        0
    } else if value < 1024 * 1024 {
        1
    } else if value < 1024 * 1024 * 1024 {
        2
    } else if value < 1024 * 1024 * 1024 * 1024 {
        3
    } else {
        4
    }
}

/// How many bytes the unit is.
pub open spec fn unit_size(unit: nat) -> nat {
    if unit == 0 {
        1
    } else if unit == 1 {
        1024
    } else if unit == 2 {
        1024 * 1024
    } else if unit == 3 {
        1024 * 1024 * 1024
    } else {
        1024 * 1024 * 1024 * 1024
    }
}

/// The name of the unit.
pub open spec fn unit_name(unit: nat) -> Seq<char> {
    if unit == 0 {
        "B"@
    } else if unit == 1 {
        "KiB"@
    } else if unit == 2 {
        "MiB"@
    } else if unit == 3 {
        "GiB"@
    } else {
        "TiB"@
    }
}

/// `bytes` as it is shown: in bytes, or in the largest unit that it reaches,
/// with one decimal place.
pub open spec fn size_text(bytes: nat) -> Seq<char> {
    let value = as_double(bytes);
    let unit = unit_of(value);
    if unit == 0 {
        decimal(bytes) + " "@ + unit_name(0)
    } else {
        let tenths = nearest(value * 10, unit_size(unit));
        decimal(tenths / 10) + "."@ + decimal(tenths % 10) + " "@ + unit_name(unit)
    }
}

fn divide_nearest(a: u128, b: u128) -> (result: u128)
    requires
        0 < b < 0x1_0000_0000_0000_0000_0000,
        a < 0x1_0000_0000_0000_0000_0000,
    ensures
        result == nearest(a as nat, b as nat),
        result <= a / b + 1,
{
    let low: u128 = a / b;
    let rest: u128 = a % b;
    assert(low <= a) by (nonlinear_arith)
        requires
            low == a / b,
            0 < b,
    ;
    if 2 * rest > b || (2 * rest == b && low % 2 == 1) {
        low + 1
    } else {
        low
    }
}

fn to_double(n: u64) -> (value: u128)
    ensures
        value == as_double(n as nat),
        value <= 0x2_0000_0000_0000_0000,
{
    let wide: u128 = n as u128;
    let mut limit: u128 = 0x20_0000_0000_0000;
    let mut scale: u128 = 1;
    while wide >= limit
        invariant
            wide == n,
            0 < scale,
            limit == scale * 0x20_0000_0000_0000,
            scale <= 0x1000,
            grain(n as nat, limit as nat, scale as nat) == grain(
                n as nat,
                0x20_0000_0000_0000,
                1,
            ),
        decreases 0x1000 - scale,
    {
        limit = 2 * limit;
        scale = 2 * scale;
    }
    let count = divide_nearest(wide, scale);
    let ghost low = wide / scale;
    proof {
        assert(scale * low <= wide) by (nonlinear_arith)
            requires
                low == wide / scale,
                0 < scale,
        ;
        assert(count * scale <= wide + scale) by (nonlinear_arith)
            requires
                count <= low + 1,
                scale * low <= wide,
                0 < scale,
        ;
    }
    count * scale
}

fn name_of_unit(unit: u8) -> (name: &'static str)
    ensures
        name@ == unit_name(unit as nat),
{
    if unit == 0 {
        "B"
    } else if unit == 1 {
        "KiB"
    } else if unit == 2 {
        "MiB"
    } else if unit == 3 {
        "GiB"
    } else {
        "TiB"
    }
}

/// `bytes` as it is shown.
pub fn format_bytes(bytes: u64) -> (text: String)
    ensures
        text@ == size_text(bytes as nat),
{
    let value = to_double(bytes);
    let kib: u128 = 1024;
    let (unit, size): (u8, u128) = if value < kib {
        (0, 1)
    } else if value < kib * 1024 {
        (1, kib)
    } else if value < kib * 1024 * 1024 {
        (2, kib * 1024)
    } else if value < kib * 1024 * 1024 * 1024 {
        (3, kib * 1024 * 1024)
    } else {
        (4, kib * 1024 * 1024 * 1024)
    };
    if unit == 0 {
        return number(bytes).concat(" ").concat(name_of_unit(0));
    }
    let tenths = divide_nearest(value * 10, size);
    assert(value * 10 / size as int <= 0x1_0000_0000_0000_0000) by (nonlinear_arith)
        requires
            value * 10 <= 1024 * 0x1_0000_0000_0000_0000,
            size >= 1024,
    ;
    number((tenths / 10) as u64).concat(".").concat(number((tenths % 10) as u64).as_str()).concat(
        " ",
    ).concat(name_of_unit(unit))
}

// ---------------------------------------------------------------------------
// Progress

/// How far a download is. Times are nanoseconds since it began.
#[derive(Debug)]
pub struct DownloadProgress {
    pub label: String,
    pub total_bytes: Option<u64>,
    pub downloaded_bytes: u64,
    pub last_render_at: u64,
    pub is_terminal: bool,
}

impl DownloadProgress {
    /// A download from `url` to `path`, of which nothing is there yet. It is
    /// shown under the name of the file.
    pub fn new(url: &str, path: &str, total_bytes: Option<u64>, is_terminal: bool) -> (progress:
        DownloadProgress)
        ensures
            progress.label@ == (match file_name_of(path@) {
                Some(name) => name,
                None => url@,
            }),
            progress.total_bytes == total_bytes,
            progress.downloaded_bytes == 0,
            progress.last_render_at == 0,
            progress.is_terminal == is_terminal,
    {
        let label = match file_name(path) {
            Some(name) => name,
            None => url.to_owned(),
        };
        DownloadProgress {
            label,
            total_bytes,
            downloaded_bytes: 0,
            last_render_at: 0,
            is_terminal,
        }
    }

    /// Counts `bytes` that came by the time `now`, and says whether the
    /// progress is to be shown again: on a terminal, but not too often.
    pub fn advance(&mut self, bytes: u64, now: u64) -> (shown: bool)
        requires
            old(self).downloaded_bytes + bytes <= u64::MAX,
        ensures
            shown == (old(self).is_terminal && now >= old(self).last_render_at
                + RENDER_INTERVAL_NANOS),
            *final(self) == (DownloadProgress {
                downloaded_bytes: (old(self).downloaded_bytes + bytes) as u64,
                last_render_at: if shown {
                    now
                } else {
                    old(self).last_render_at
                },
                ..*old(self)
            }),
    {
        self.downloaded_bytes = self.downloaded_bytes + bytes;
        if !self.is_terminal {
            return false;
        }
        if now >= self.last_render_at && now - self.last_render_at >= RENDER_INTERVAL_NANOS {
            self.last_render_at = now;
            true
        } else {
            false
        }
    }

    /// What the progress line says, at `speed` bytes in a second and with
    /// `percent` of the whole there.
    pub open spec fn line(self, finished: bool, speed: u64, percent: Seq<char>) -> Seq<char> {
        let have = size_text(self.downloaded_bytes as nat);
        let rate = size_text(speed as nat) + "/s"@;
        let total = self.total_bytes->Some_0;
        if self.total_bytes is Some && total > 0 {
            let whole = size_text(total as nat);
            if finished {
                "Downloaded "@ + self.label@ + ": 100% ("@ + have + "/"@ + whole + ") at "@ + rate
            } else {
                "Downloading "@ + self.label@ + ": "@ + percent + "% ("@ + have + "/"@ + whole
                    + ") at "@ + rate
            }
        } else if finished {
            "Downloaded "@ + self.label@ + ": "@ + have + " at "@ + rate
        } else {
            "Downloading "@ + self.label@ + ": "@ + have + " at "@ + rate
        }
    }

    fn render_line(&self, finished: bool, speed: u64, percent: &str) -> (line: String)
        ensures
            line@ == self.line(finished, speed, percent@),
    {
        let have = format_bytes(self.downloaded_bytes);
        let rate = format_bytes(speed).concat("/s");
        let begin = if finished {
            "Downloaded ".to_owned()
        } else {
            "Downloading ".to_owned()
        };
        let begin = begin.concat(self.label.as_str());
        if let Some(total) = self.total_bytes {
            if total > 0 {
                let whole = format_bytes(total);
                let share = if finished {
                    begin.concat(": 100% (")
                } else {
                    begin.concat(": ").concat(percent).concat("% (")
                };
                return share.concat(have.as_str()).concat("/").concat(whole.as_str()).concat(
                    ") at ",
                ).concat(rate.as_str());
            }
        }
        begin.concat(": ").concat(have.as_str()).concat(" at ").concat(rate.as_str())
    }

    /// What is written to the terminal to show the progress: the line in place
    /// of what it holds, ended once the download is finished. Elsewhere
    /// nothing is written.
    pub fn render(&self, finished: bool, speed: u64, percent: &str) -> (output: Option<String>)
        ensures
            opt_text(output) == (if !self.is_terminal {
                None
            } else if finished {
                Some("\r\x1b[2K"@ + self.line(finished, speed, percent@) + "\n"@)
            } else {
                Some("\r\x1b[2K"@ + self.line(finished, speed, percent@))
            }),
    {
        if !self.is_terminal {
            return None;
        }
        let line = self.render_line(finished, speed, percent);
        let output = "\r\x1b[2K".to_owned().concat(line.as_str());
        if finished {
            Some(output.concat("\n"))
        } else {
            Some(output)
        }
    }
}

} // verus!
