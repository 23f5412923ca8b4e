//! What a new machine is told on its first boot, and the disk image that
//! tells it.

use vstd::prelude::*;
use vstd::utf8::encode_utf8;

use crate::error::Error;
use crate::state::hex;
use crate::state::sha256_hex;
use crate::state::sha256_of;
use crate::text::begins_with;
use crate::text::opt_text;
use crate::text::strip_prefix;
use crate::yaml::are_distinct;
use crate::yaml::classify;
use crate::yaml::flag_value;
use crate::yaml::item_trees;
use crate::yaml::law_merge_lookup;
use crate::yaml::list_value;
use crate::yaml::looked_up;
use crate::yaml::mapping;
use crate::yaml::merge_yaml;
use crate::yaml::merged;
use crate::yaml::parse;
use crate::yaml::render;
use crate::yaml::text_value;
use crate::yaml::text_entries;
use crate::yaml::yaml_parsed;
use crate::yaml::yaml_tree;
use crate::yaml::yaml_written;
use crate::yaml::YamlTree;

verus! {

/// How a cloud configuration begins.
pub const CLOUD_CONFIG_HEADER: &'static str = "#cloud-config\n";

/// The least size of a seed image.
pub const MIN_SEED_BYTES: u64 = 2_097_152;

/// The room that a seed image has beside its files.
pub const SEED_OVERHEAD_BYTES: u64 = 1_048_576;

/// What cloud-init is given.
#[derive(Debug, Clone, PartialEq, Eq)]
pub struct CloudInitRender {
    pub user_data: Vec<u8>,
    pub meta_data: Vec<u8>,
    pub network_config: Option<Vec<u8>>,
    pub user_data_sha256: String,
    pub network_config_sha256: Option<String>,
}

/// A file of a seed image.
#[derive(Debug)]
pub struct SeedFile<'a> {
    pub name: &'static str,
    pub payload: &'a Vec<u8>,
}

// ---------------------------------------------------------------------------
// The user data

/// An entry of a mapping.
pub open spec fn entry(key: Seq<char>, value: YamlTree) -> (YamlTree, YamlTree) {
    (YamlTree::Text(key), value)
}

/// The user data of a machine where nothing else is asked for: its user may
/// log in with `ssh_public_key`, and with nothing else, and the disk is grown
/// to its size.
pub open spec fn default_tree(ssh_public_key: Seq<char>) -> YamlTree {
    YamlTree::Mapping(
        seq![
            entry("disable_root"@, YamlTree::Bool(true)),
            entry("growpart"@, growpart_tree()),
            entry("resize_rootfs"@, YamlTree::Bool(true)),
            entry("ssh_pwauth"@, YamlTree::Bool(false)),
            entry(
                "users"@,
                YamlTree::List(seq![YamlTree::Text("default"@), user_tree(ssh_public_key)]),
            ),
        ],
    )
}

/// How the disk is grown.
pub open spec fn growpart_tree() -> YamlTree {
    YamlTree::Mapping(
        seq![
            entry("devices"@, YamlTree::List(seq![YamlTree::Text("/"@)])),
            entry("mode"@, YamlTree::Text("auto"@)),
        ],
    )
}

/// The user of a machine.
pub open spec fn user_tree(ssh_public_key: Seq<char>) -> YamlTree {
    YamlTree::Mapping(
        seq![
            entry("name"@, YamlTree::Text("ubuntu"@)),
            entry("ssh_authorized_keys"@, YamlTree::List(seq![YamlTree::Text(ssh_public_key)])),
            entry("sudo"@, YamlTree::Text("ALL=(ALL) NOPASSWD:ALL"@)),
        ],
    )
}

fn build_growpart() -> (value: serde_yaml::Value)
    ensures
        yaml_tree(value) == growpart_tree(),
{
    let mut devices: Vec<serde_yaml::Value> = Vec::new();
    devices.push(text_value("/"));
    assert(item_trees(devices@) =~= seq![YamlTree::Text("/"@)]);
    let mut entries: Vec<(&'static str, serde_yaml::Value)> = Vec::new();
    entries.push(("devices", list_value(devices)));
    entries.push(("mode", text_value("auto")));
    proof {
        reveal_strlit("devices");
        reveal_strlit("mode");
        assert("devices"@.len() == 7 && "mode"@.len() == 4);
        assert(text_entries(entries@) =~= growpart_tree()->Mapping_0);
    }
    mapping(entries)
}

fn build_user(ssh_public_key: &str) -> (value: serde_yaml::Value)
    ensures
        yaml_tree(value) == user_tree(ssh_public_key@),
{
    let mut keys: Vec<serde_yaml::Value> = Vec::new();
    keys.push(text_value(ssh_public_key));
    assert(item_trees(keys@) =~= seq![YamlTree::Text(ssh_public_key@)]);
    let mut entries: Vec<(&'static str, serde_yaml::Value)> = Vec::new();
    entries.push(("name", text_value("ubuntu")));
    entries.push(("ssh_authorized_keys", list_value(keys)));
    entries.push(("sudo", text_value("ALL=(ALL) NOPASSWD:ALL")));
    proof {
        reveal_strlit("name");
        reveal_strlit("ssh_authorized_keys");
        reveal_strlit("sudo");
        assert("name"@.len() == 4 && "ssh_authorized_keys"@.len() == 19 && "sudo"@.len() == 4);
        assert("name"@[0] == 'n' && "sudo"@[0] == 's');
        assert(text_entries(entries@) =~= user_tree(ssh_public_key@)->Mapping_0);
    }
    mapping(entries)
}

/// The user data of a machine where nothing else is asked for.
pub fn default_user_data(ssh_public_key: &str) -> (value: serde_yaml::Value)
    ensures
        yaml_tree(value) == default_tree(ssh_public_key@),
        are_distinct(default_tree(ssh_public_key@)->Mapping_0),
{
    let mut users: Vec<serde_yaml::Value> = Vec::new();
    users.push(text_value("default"));
    users.push(build_user(ssh_public_key));
    assert(item_trees(users@) =~= seq![YamlTree::Text("default"@), user_tree(ssh_public_key@)]);
    let mut entries: Vec<(&'static str, serde_yaml::Value)> = Vec::new();
    entries.push(("disable_root", flag_value(true)));
    entries.push(("growpart", build_growpart()));
    entries.push(("resize_rootfs", flag_value(true)));
    entries.push(("ssh_pwauth", flag_value(false)));
    entries.push(("users", list_value(users)));
    proof {
        reveal_strlit("disable_root");
        reveal_strlit("growpart");
        reveal_strlit("resize_rootfs");
        reveal_strlit("ssh_pwauth");
        reveal_strlit("users");
        assert("disable_root"@.len() == 12 && "growpart"@.len() == 8);
        assert("resize_rootfs"@.len() == 13 && "ssh_pwauth"@.len() == 10 && "users"@.len() == 5);
        assert(text_entries(entries@) =~= default_tree(ssh_public_key@)->Mapping_0);
    }
    mapping(entries)
}

/// `payload` without the line that a cloud configuration begins with.
pub open spec fn without_header(payload: Seq<char>) -> Seq<char> {
    if begins_with(payload, CLOUD_CONFIG_HEADER@) {
        payload.skip(CLOUD_CONFIG_HEADER@.len() as int)
    } else {
        payload
    }
}

/// What is said where an override cannot be read.
pub open spec fn unreadable_message(path: Seq<char>) -> Seq<char> {
    "parse cloud-init YAML from "@ + path
}

/// What is said where an override is no mapping.
pub open spec fn no_mapping_message() -> Seq<char> {
    "cloud-init user-data override must be a YAML mapping"@
}

/// `error` is what comes of an override in the file `path` that is read as
/// `parsed`.
pub open spec fn is_override_error(
    error: Error,
    path: Seq<char>,
    parsed: Result<YamlTree, Seq<char>>,
) -> bool {
    match parsed {
        Err(reason) => error.message@ == unreadable_message(path)
            && opt_text(error.cause) == Some(reason),
        Ok(tree) => !(tree is Mapping)
            && error.message@ == no_mapping_message() && error.cause is None,
    }
}

/// What a YAML value, or the reason why there is none, holds.
pub open spec fn parsed_tree(parsed: Result<serde_yaml::Value, String>) -> Result<
    YamlTree,
    Seq<char>,
> {
    match parsed {
        Ok(value) => Ok(yaml_tree(value)),
        Err(reason) => Err(reason@),
    }
}

/// The override in the file `path` that is read as `parsed`, if it is a
/// mapping.
pub fn accept_override(path: &str, parsed: Result<serde_yaml::Value, String>) -> (result: Result<
    serde_yaml::Value,
    Error,
>)
    ensures
        match result {
            Ok(value) => yaml_tree(value) is Mapping && parsed_tree(parsed) == Ok::<
                YamlTree,
                Seq<char>,
            >(yaml_tree(value)),
            Err(error) => is_override_error(error, path@, parsed_tree(parsed)),
        },
{
    match parsed {
        Err(reason) => Err(
            Error::caused("parse cloud-init YAML from ".to_owned().concat(path), reason),
        ),
        Ok(value) => {
            let (value, is_mapping) = classify(value);
            if is_mapping {
                Ok(value)
            } else {
                Err(
                    Error::new(
                        "cloud-init user-data override must be a YAML mapping".to_owned(),
                    ),
                )
            }
        },
    }
}

/// The override that the file `path` with the contents `payload` holds.
pub fn read_cloud_config_yaml(path: &str, payload: &str) -> (result: Result<
    serde_yaml::Value,
    Error,
>)
    ensures
        match result {
            Ok(value) => yaml_tree(value) is Mapping && yaml_parsed(without_header(payload@))
                == Ok::<YamlTree, Seq<char>>(yaml_tree(value)),
            Err(error) => is_override_error(
                error,
                path@,
                yaml_parsed(without_header(payload@)),
            ),
        },
{
    let normalized = match strip_prefix(payload, CLOUD_CONFIG_HEADER) {
        Some(rest) => rest,
        None => payload.to_owned(),
    };
    accept_override(path, parse(normalized.as_str()))
}

/// The user data that `written`, or the reason why there is none, makes.
pub open spec fn is_user_data(
    result: Result<String, Error>,
    written: Result<Seq<char>, Seq<char>>,
) -> bool {
    match written {
        Ok(yaml) => result matches Ok(payload) && payload@ == CLOUD_CONFIG_HEADER@ + yaml,
        Err(reason) => result matches Err(error) && error.message@ == reason && error.cause is None,
    }
}

/// Puts the header before YAML that was written.
pub fn with_header(written: Result<String, String>) -> (result: Result<String, Error>)
    ensures
        is_user_data(
            result,
            match written {
                Ok(yaml) => Ok(yaml@),
                Err(reason) => Err(reason@),
            },
        ),
{
    match written {
        Ok(yaml) => Ok(CLOUD_CONFIG_HEADER.to_owned().concat(yaml.as_str())),
        Err(reason) => Err(Error::new(reason)),
    }
}

/// The user data of a machine: what every machine is told, and what the file
/// `path` with the contents `payload` lays over it.
pub fn compose_user_data(ssh_public_key: &str, user_data: Option<(&str, &str)>) -> (result: Result<
    String,
    Error,
>)
    ensures
        match user_data {
            None => is_user_data(result, yaml_written(default_tree(ssh_public_key@))),
            Some((path, payload)) => {
                let parsed = yaml_parsed(without_header(payload@));
                if parsed matches Ok(tree) && tree is Mapping {
                    is_user_data(
                        result,
                        yaml_written(merged(default_tree(ssh_public_key@), parsed->Ok_0)),
                    )
                } else {
                    result matches Err(error) && is_override_error(error, path@, parsed)
                }
            },
        },
{
    let standard = default_user_data(ssh_public_key);
    let value = match user_data {
        None => standard,
        Some((path, payload)) => match read_cloud_config_yaml(path, payload) {
            Err(error) => return Err(error),
            Ok(over) => merge_yaml(standard, over),
        },
    };
    with_header(render(&value))
}

// ---------------------------------------------------------------------------
// All of it

/// The name of a machine, as it is told.
pub open spec fn meta_text(name: Seq<char>) -> Seq<char> {
    "instance-id: hardpass-"@ + name + "\nlocal-hostname: "@ + name + "\n"@
}

/// The checksum of `bytes`, if there are any.
pub open spec fn checksum_of(bytes: Option<Vec<u8>>) -> Option<Seq<char>> {
    match bytes {
        Some(bytes) => Some(hex(sha256_of(bytes@))),
        None => None,
    }
}

impl CloudInitRender {
    /// This is what the machine `name` is given with the user data `payload`
    /// and the network configuration `network_config`.
    pub open spec fn is_made_of(
        self,
        name: Seq<char>,
        payload: Seq<char>,
        network_config: Option<Vec<u8>>,
    ) -> bool {
        &&& self.user_data@ == encode_utf8(payload)
        &&& self.meta_data@ == encode_utf8(meta_text(name))
        &&& self.network_config == network_config
        &&& self.user_data_sha256@ == hex(sha256_of(encode_utf8(payload)))
        &&& opt_text(self.network_config_sha256) == checksum_of(network_config)
    }
}

/// What the machine `name` is given.
pub fn assemble(name: &str, payload: &str, network_config: Option<Vec<u8>>) -> (result:
    CloudInitRender)
    ensures
        result.is_made_of(name@, payload@, network_config),
{
    let meta = "instance-id: hardpass-".to_owned().concat(name).concat(
        "\nlocal-hostname: ",
    ).concat(name).concat("\n");
    let network_config_sha256 = match &network_config {
        Some(bytes) => Some(sha256_hex(bytes.as_slice())),
        None => None,
    };
    CloudInitRender {
        user_data: payload.as_bytes_vec(),
        meta_data: meta.as_str().as_bytes_vec(),
        network_config,
        user_data_sha256: sha256_hex(payload.as_bytes()),
        network_config_sha256,
    }
}

/// What the machine `name` is given, with the contents of the files that the
/// user asks for. Where the user data is wrong and the network configuration
/// could not be read either, the former is the error.
pub fn render_cloud_init(
    name: &str,
    ssh_public_key: &str,
    user_data: Option<(&str, &str)>,
    network_config: Result<Option<Vec<u8>>, Error>,
) -> (result: Result<CloudInitRender, Error>)
    ensures
        match user_data {
            None => is_render(
                result,
                name@,
                yaml_written(default_tree(ssh_public_key@)),
                network_config,
            ),
            Some((path, payload)) => {
                let parsed = yaml_parsed(without_header(payload@));
                if parsed matches Ok(tree) && tree is Mapping {
                    is_render(
                        result,
                        name@,
                        yaml_written(merged(default_tree(ssh_public_key@), parsed->Ok_0)),
                        network_config,
                    )
                } else {
                    result matches Err(error) && is_override_error(error, path@, parsed)
                }
            },
        },
{
    let payload = match compose_user_data(ssh_public_key, user_data) {
        Ok(payload) => payload,
        Err(error) => return Err(error),
    };
    match network_config {
        Ok(network_config) => Ok(assemble(name, payload.as_str(), network_config)),
        Err(error) => Err(error),
    }
}

/// `result` is what comes of user data that is written as `written`, and of
/// the network configuration that was read.
pub open spec fn is_render(
    result: Result<CloudInitRender, Error>,
    name: Seq<char>,
    written: Result<Seq<char>, Seq<char>>,
    network_config: Result<Option<Vec<u8>>, Error>,
) -> bool {
    match written {
        Ok(yaml) => match network_config {
            Ok(network_config) => result matches Ok(render) && render.is_made_of(
                name,
                CLOUD_CONFIG_HEADER@ + yaml,
                network_config,
            ),
            Err(error) => result == Err::<CloudInitRender, Error>(error),
        },
        Err(reason) => result matches Err(error) && error.message@ == reason && error.cause is None,
    }
}

// ---------------------------------------------------------------------------
// The seed image

/// How many bytes the files of a seed image hold.
pub open spec fn payload_size(render: CloudInitRender) -> nat {
    render.user_data@.len() + render.meta_data@.len() + match render.network_config {
        Some(network) => network@.len(),
        None => 0,
    }
}

/// How large a seed image with `payload` bytes in its files is: those and
/// some room, and not less than the least size.
pub open spec fn seed_size(payload: nat) -> int {
    let size = payload + SEED_OVERHEAD_BYTES;
    if size > u64::MAX {
        u64::MAX as int
    } else if size < MIN_SEED_BYTES {
        MIN_SEED_BYTES as int
    } else {
        size
    }
}

/// How large the seed image is.
pub fn seed_image_size(render: &CloudInitRender) -> (size: u64)
    requires
        payload_size(*render) <= u64::MAX,
    ensures
        size == seed_size(payload_size(*render)),
{
    let network: u64 = match &render.network_config {
        Some(network) => network.len() as u64,
        None => 0,
    };
    let payload: u64 = render.user_data.len() as u64 + render.meta_data.len() as u64 + network;
    let size: u64 = if payload <= u64::MAX - SEED_OVERHEAD_BYTES {
        payload + SEED_OVERHEAD_BYTES
    } else {
        u64::MAX
    };
    if size < MIN_SEED_BYTES {
        MIN_SEED_BYTES
    } else {
        size
    }
}

/// The label that cloud-init looks for: `CIDATA`, filled up with spaces.
pub fn seed_label() -> (label: [u8; 11])
    ensures
        label@ == seq![67u8, 73, 68, 65, 84, 65, 32, 32, 32, 32, 32],
{
    [67, 73, 68, 65, 84, 65, 32, 32, 32, 32, 32]
}

/// The names and contents of the files of a seed image.
pub open spec fn seed_contents(render: CloudInitRender) -> Seq<(Seq<char>, Seq<u8>)> {
    let files = seq![
        ("user-data"@, render.user_data@),
        ("meta-data"@, render.meta_data@),
    ];
    match render.network_config {
        Some(network) => files.push(("network-config"@, network@)),
        None => files,
    }
}

/// What a file of a seed image is called and holds.
pub open spec fn file_contents(file: SeedFile) -> (Seq<char>, Seq<u8>) {
    (file.name@, file.payload@)
}

/// The files of a seed image.
pub fn seed_files<'a>(render: &'a CloudInitRender) -> (files: Vec<SeedFile<'a>>)
    ensures
        files@.map_values(|file: SeedFile<'a>| file_contents(file)) == seed_contents(*render),
        files@.len() == (if render.network_config is Some {
            3int
        } else {
            2int
        }),
        files@[0].name@ == "user-data"@ && files@[0].payload@ == render.user_data@,
        files@[1].name@ == "meta-data"@ && files@[1].payload@ == render.meta_data@,
        render.network_config matches Some(network) ==> files@[2].name@ == "network-config"@
            && files@[2].payload@ == network@,
{
    let mut files: Vec<SeedFile<'a>> = Vec::new();
    files.push(SeedFile { name: "user-data", payload: &render.user_data });
    files.push(SeedFile { name: "meta-data", payload: &render.meta_data });
    if let Some(network) = &render.network_config {
        files.push(SeedFile { name: "network-config", payload: network });
    }
    files
}

/// What the first of `files` that is called `name` holds.
pub open spec fn file_called(files: Seq<(Seq<char>, Seq<u8>)>, name: Seq<char>) -> Option<Seq<u8>>
    decreases files.len(),
{
    if files.len() == 0 {
        None
    } else if files[0].0 == name {
        Some(files[0].1)
    } else {
        file_called(files.skip(1), name)
    }
}

/// A guest that looks for the files of cloud-init in its seed image finds in
/// each what was rendered for it: the user data under `user-data`, what it is
/// told of itself under `meta-data`, and the network configuration under
/// `network-config` exactly if there is one. No other file is there.
pub proof fn law_guest_finds_its_files(render: CloudInitRender, name: Seq<char>)
    ensures
        file_called(seed_contents(render), "user-data"@) == Some(render.user_data@),
        file_called(seed_contents(render), "meta-data"@) == Some(render.meta_data@),
        file_called(seed_contents(render), "network-config"@) == (match render.network_config {
            Some(network) => Some(network@),
            None => None,
        }),
        file_called(seed_contents(render), name) is Some ==> name == "user-data"@ || name
            == "meta-data"@ || name == "network-config"@,
        seed_contents(render).len() == (if render.network_config is Some {
            3int
        } else {
            2int
        }),
{
    reveal_with_fuel(file_called, 4);
    reveal_strlit("user-data");
    reveal_strlit("meta-data");
    reveal_strlit("network-config");
    assert("user-data"@[0] == 'u' && "meta-data"@[0] == 'm' && "network-config"@[0] == 'n');
}

/// The sizes of the files of a seed image, added up.
pub open spec fn total_size(files: Seq<(Seq<char>, Seq<u8>)>) -> nat
    decreases files.len(),
{
    if files.len() == 0 {
        0
    } else {
        total_size(files.drop_last()) + files.last().1.len()
    }
}

/// The seed image has room for all of its files, as far as a size can be
/// written.
pub proof fn law_seed_image_has_room(render: CloudInitRender)
    requires
        payload_size(render) + SEED_OVERHEAD_BYTES <= u64::MAX,
    ensures
        total_size(seed_contents(render)) == payload_size(render),
        total_size(seed_contents(render)) + SEED_OVERHEAD_BYTES <= seed_size(payload_size(render)),
        MIN_SEED_BYTES <= seed_size(payload_size(render)),
{
    let files = seed_contents(render);
    reveal_with_fuel(total_size, 4);
    let two = seq![("user-data"@, render.user_data@), ("meta-data"@, render.meta_data@)];
    assert(two.drop_last() =~= seq![("user-data"@, render.user_data@)]);
    assert(two.drop_last().drop_last() =~= Seq::<(Seq<char>, Seq<u8>)>::empty());
    assert(total_size(two) == render.user_data@.len() + render.meta_data@.len());
    if let Some(network) = render.network_config {
        assert(files.drop_last() =~= two);
    }
}

/// What a machine is told of its disk and of the keys of its user is what
/// every machine is told, unless an override says otherwise: what is found
/// under a key that the override does not have is what was there.
pub proof fn law_override_adds(
    ssh_public_key: Seq<char>,
    over: Seq<(YamlTree, YamlTree)>,
    key: YamlTree,
)
    requires
        are_distinct(default_tree(ssh_public_key)->Mapping_0),
        are_distinct(over),
        looked_up(over, key) is None,
    ensures
        looked_up(
            merged(default_tree(ssh_public_key), YamlTree::Mapping(over))->Mapping_0,
            key,
        ) == looked_up(default_tree(ssh_public_key)->Mapping_0, key),
{
    law_merge_lookup(default_tree(ssh_public_key)->Mapping_0, over, key);
}

} // verus!
