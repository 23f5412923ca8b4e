//! What holds of what a new machine is told, read as cloud-init reads it.

use vstd::prelude::*;
use vstd::utf8::encode_utf8;

use crate::cloud_init::default_tree;
use crate::cloud_init::is_override_error;
use crate::cloud_init::is_render;
use crate::cloud_init::is_user_data;
use crate::cloud_init::meta_text;
use crate::cloud_init::payload_size;
use crate::cloud_init::seed_size;
use crate::cloud_init::without_header;
use crate::cloud_init::CloudInitRender;
use crate::error::Error;
use crate::lines::are_lines;
use crate::lines::is_ended;
use crate::lines::is_line;
use crate::lines::lemma_flatten_one;
use crate::lines::lemma_lines_of_flatten;
use crate::state::hex;
use crate::state::sha256_of;
use crate::text::begins_with;
use crate::text::lines;
use crate::text::opt_text;
use crate::yaml::are_distinct;
use crate::yaml::key_index;
use crate::yaml::merged;
use crate::yaml::merged_entries;
use crate::yaml::yaml_class;
use crate::yaml::YamlTree;

verus! {

// ---------------------------------------------------------------------------
// The user data

/// What a mapping has for the text `key`.
pub open spec fn under_key(tree: YamlTree, key: Seq<char>) -> Option<YamlTree> {
    match tree {
        YamlTree::Mapping(entries) => first_under(entries, key),
        _ => None,
    }
}

/// What the first of `entries` with the text `key` has.
pub open spec fn first_under(entries: Seq<(YamlTree, YamlTree)>, key: Seq<char>) -> Option<YamlTree>
    decreases entries.len(),
{
    if entries.len() == 0 {
        None
    } else if entries[0].0 == YamlTree::Text(key) {
        Some(entries[0].1)
    } else {
        first_under(entries.skip(1), key)
    }
}

/// Every machine is told to let nobody log in as root or with a password, to
/// grow its disk and its file system, and to have, beside the default user, the
/// user `ubuntu`, who may do everything and logs in with the key and no other.
pub proof fn law_what_every_machine_is_told(ssh_public_key: Seq<char>)
    ensures
        under_key(default_tree(ssh_public_key), "disable_root"@) == Some(YamlTree::Bool(true)),
        under_key(default_tree(ssh_public_key), "ssh_pwauth"@) == Some(YamlTree::Bool(false)),
        under_key(default_tree(ssh_public_key), "resize_rootfs"@) == Some(YamlTree::Bool(true)),
        under_key(default_tree(ssh_public_key), "growpart"@) matches Some(growpart) && under_key(
            growpart,
            "mode"@,
        ) == Some(YamlTree::Text("auto"@)) && under_key(growpart, "devices"@) == Some(
            YamlTree::List(seq![YamlTree::Text("/"@)]),
        ) && growpart->Mapping_0.len() == 2,
        under_key(default_tree(ssh_public_key), "users"@) matches Some(YamlTree::List(users))
            && users.len() == 2 && users[0] == YamlTree::Text("default"@) && is_user(
            users[1],
            ssh_public_key,
        ),
        default_tree(ssh_public_key)->Mapping_0.len() == 5,
{
    let entries = default_tree(ssh_public_key)->Mapping_0;
    lemma_keys();
    reveal_with_fuel(first_under, 6);
    assert(entries.skip(1).skip(1) =~= entries.skip(2));
    assert(entries.skip(2).skip(1) =~= entries.skip(3));
    assert(entries.skip(3).skip(1) =~= entries.skip(4));
    let growpart = crate::cloud_init::growpart_tree()->Mapping_0;
    assert(growpart.skip(1)[0] == growpart[1]);
    let user = crate::cloud_init::user_tree(ssh_public_key)->Mapping_0;
    assert(user.skip(1)[0] == user[1]);
    assert(user.skip(1).skip(1)[0] == user[2]);
}

/// `tree` is the user `ubuntu` with the key `ssh_public_key`.
pub open spec fn is_user(tree: YamlTree, ssh_public_key: Seq<char>) -> bool {
    &&& under_key(tree, "name"@) == Some(YamlTree::Text("ubuntu"@))
    &&& under_key(tree, "sudo"@) == Some(YamlTree::Text("ALL=(ALL) NOPASSWD:ALL"@))
    &&& under_key(tree, "ssh_authorized_keys"@) == Some(
        YamlTree::List(seq![YamlTree::Text(ssh_public_key)]),
    )
    &&& tree->Mapping_0.len() == 3
}

proof fn lemma_keys()
    ensures
        "disable_root"@.len() == 12,
        "growpart"@.len() == 8,
        "resize_rootfs"@.len() == 13,
        "ssh_pwauth"@.len() == 10,
        "users"@.len() == 5,
        "devices"@.len() == 7,
        "mode"@.len() == 4,
        "name"@.len() == 4 && "name"@[0] == 'n',
        "sudo"@.len() == 4 && "sudo"@[0] == 's',
        "ssh_authorized_keys"@.len() == 19,
{
    reveal_strlit("disable_root");
    reveal_strlit("growpart");
    reveal_strlit("resize_rootfs");
    reveal_strlit("ssh_pwauth");
    reveal_strlit("users");
    reveal_strlit("devices");
    reveal_strlit("mode");
    reveal_strlit("name");
    reveal_strlit("sudo");
    reveal_strlit("ssh_authorized_keys");
}

/// The header of a cloud configuration is taken off where it is there, once,
/// and anything else is left as it is.
pub proof fn law_header_is_taken_off(body: Seq<char>)
    ensures
        without_header("#cloud-config\n"@ + body) == body,
        !begins_with(body, "#cloud-config\n"@) ==> without_header(body) == body,
{
    let header = "#cloud-config\n"@;
    let all = header + body;
    assert(all.take(header.len() as int) =~= header);
    assert(all.skip(header.len() as int) =~= body);
}

/// The user data is there exactly if it could be written, and it is what was
/// written after the header: without the header it is read as that again.
pub proof fn law_user_data_has_the_header(
    result: Result<String, Error>,
    written: Result<Seq<char>, Seq<char>>,
)
    requires
        is_user_data(result, written),
    ensures
        result is Ok <==> written is Ok,
        result matches Ok(payload) ==> begins_with(payload@, "#cloud-config\n"@) && without_header(
            payload@,
        ) == written->Ok_0,
        result matches Err(error) ==> error.message@ == written->Err_0,
{
    if let Ok(payload) = result {
        let yaml = written->Ok_0;
        law_header_is_taken_off(yaml);
        let header = "#cloud-config\n"@;
        assert(payload@ == header + yaml);
        assert(payload@.take(header.len() as int) =~= header);
    }
}

/// An override is wrong if it cannot be read, and then the file is named and
/// the reason given, or if it is no mapping; and for no other reason.
pub proof fn law_wrong_overrides(
    error: Error,
    path: Seq<char>,
    parsed: Result<YamlTree, Seq<char>>,
)
    requires
        is_override_error(error, path, parsed),
    ensures
        !(parsed matches Ok(YamlTree::Mapping(_))),
        parsed matches Err(reason) ==> opt_text(error.cause) == Some(reason) && begins_with(
            error.message@,
            "parse cloud-init YAML from "@,
        ) && error.message@.skip(27) == path,
        parsed is Ok ==> error.message@ == "cloud-init user-data override must be a YAML mapping"@
            && error.cause is None,
{
    if parsed is Err {
        reveal_strlit("parse cloud-init YAML from ");
        let front = "parse cloud-init YAML from "@;
        assert(error.message@.take(27) =~= front);
        assert(error.message@.skip(27) =~= path);
    }
}

// ---------------------------------------------------------------------------
// All of it

/// The checksums are those of what is handed to the machine, and what it is
/// told of itself is its name, in two lines: as the name of the instance and as
/// the name of the host.
pub proof fn law_checksums_and_names(
    render: CloudInitRender,
    name: Seq<char>,
    payload: Seq<char>,
    network_config: Option<Vec<u8>>,
)
    requires
        render.is_made_of(name, payload, network_config),
        !name.contains('\n'),
    ensures
        render.user_data@ == encode_utf8(payload),
        render.user_data_sha256@ == hex(sha256_of(render.user_data@)),
        render.network_config == network_config,
        match render.network_config {
            Some(bytes) => render.network_config_sha256 matches Some(sha) && sha@ == hex(
                sha256_of(bytes@),
            ),
            None => render.network_config_sha256 is None,
        },
        render.meta_data@ == encode_utf8(meta_text(name)),
        lines(meta_text(name)) == seq![
            "instance-id: hardpass-"@ + name + "\n"@,
            "local-hostname: "@ + name + "\n"@,
        ],
{
    lemma_meta_phrases();
    let one = "instance-id: hardpass-"@ + name + "\n"@;
    let two = "local-hostname: "@ + name + "\n"@;
    lemma_meta_line("instance-id: hardpass-"@, name);
    lemma_meta_line("local-hostname: "@, name);
    let all = seq![one, two];
    assert(are_lines(all));
    lemma_lines_of_flatten(all);
    lemma_flatten_one(one);
    lemma_flatten_one(two);
    vstd::seq_lib::lemma_flatten_concat(seq![one], seq![two]);
    assert(seq![one] + seq![two] =~= all);
    assert(meta_text(name) =~= one + two);
}

proof fn lemma_meta_phrases()
    ensures
        "\nlocal-hostname: "@ == "\n"@ + "local-hostname: "@,
        !"instance-id: hardpass-"@.contains('\n'),
        !"local-hostname: "@.contains('\n'),
{
    reveal_strlit("\nlocal-hostname: ");
    reveal_strlit("\n");
    reveal_strlit("local-hostname: ");
    reveal_strlit("instance-id: hardpass-");
    assert("\nlocal-hostname: "@ =~= "\n"@ + "local-hostname: "@);
}

proof fn lemma_meta_line(label: Seq<char>, name: Seq<char>)
    requires
        !label.contains('\n'),
        !name.contains('\n'),
    ensures
        is_line(label + name + "\n"@),
        is_ended(label + name + "\n"@),
{
    reveal_strlit("\n");
    let line = label + name + "\n"@;
    assert forall|i: int| 0 <= i < line.len() - 1 implies line[i] != '\n' by {
        if i < label.len() {
            assert(label.contains(label[i]));
        } else {
            assert(line[i] == name[i - label.len()]);
            assert(name.contains(name[i - label.len()]));
        }
    }
}

/// All of it is there exactly if the user data could be written and the network
/// configuration could be read; of two failures the one of the user data is
/// told.
pub proof fn law_rendered_or_told_why(
    result: Result<CloudInitRender, Error>,
    name: Seq<char>,
    written: Result<Seq<char>, Seq<char>>,
    network_config: Result<Option<Vec<u8>>, Error>,
)
    requires
        is_render(result, name, written, network_config),
    ensures
        result is Ok <==> written is Ok && network_config is Ok,
        written matches Err(reason) ==> (result matches Err(error) && error.message@ == reason),
        written is Ok ==> (network_config matches Err(reason) ==> result == Err::<
            CloudInitRender,
            Error,
        >(reason)),
        result matches Ok(render) ==> render.user_data@ == encode_utf8(
            "#cloud-config\n"@ + written->Ok_0,
        ) && render.network_config == network_config->Ok_0 && render.meta_data@ == encode_utf8(
            meta_text(name),
        ),
{
}

// ---------------------------------------------------------------------------
// The seed image

/// A seed image has a mebibyte beside its files, and two in all at least.
pub proof fn law_seed_size(payload: nat, more: nat)
    ensures
        payload + 0x10_0000 <= u64::MAX ==> payload + 0x10_0000 <= seed_size(payload),
        0x20_0000 <= seed_size(payload) <= u64::MAX,
        payload <= 0x10_0000 ==> seed_size(payload) == 0x20_0000,
        payload >= 0x10_0000 && payload + 0x10_0000 <= u64::MAX ==> seed_size(payload) == payload
            + 0x10_0000,
        seed_size(payload) <= seed_size(payload + more),
{
}

/// The files of a seed image hold the user data, what the machine is told of
/// itself, and the network configuration if there is one.
pub proof fn law_payload_size(render: CloudInitRender)
    ensures
        render.network_config is None ==> payload_size(render) == render.user_data@.len()
            + render.meta_data@.len(),
        render.network_config matches Some(network) ==> payload_size(render)
            == render.user_data@.len() + render.meta_data@.len() + network@.len(),
{
}

// ---------------------------------------------------------------------------
// Laying one value over another

/// Only a mapping over a mapping is merged; anything else is replaced by what
/// is laid over it.
pub proof fn law_only_mappings_are_merged(target: YamlTree, source: YamlTree)
    ensures
        !(source is Mapping) || !(target is Mapping) ==> merged(target, source) == source,
        source is Mapping && target is Mapping ==> merged(target, source) is Mapping,
        merged(target, YamlTree::Mapping(Seq::empty())) == (if target is Mapping {
            target
        } else {
            YamlTree::Mapping(Seq::empty())
        }),
{
}

/// Entries with keys that were not there come after those that were, in their
/// order.
pub proof fn law_new_entries_come_last(
    under: Seq<(YamlTree, YamlTree)>,
    over: Seq<(YamlTree, YamlTree)>,
)
    requires
        are_distinct(under),
        are_distinct(over),
        forall|i: int, j: int|
            0 <= i < under.len() && 0 <= j < over.len() ==> yaml_class((#[trigger] under[i]).0)
                != yaml_class((#[trigger] over[j]).0),
    ensures
        merged_entries(under, over) == under + over,
    decreases over.len(),
{
    if over.len() == 0 {
        assert(under + over =~= under);
    } else {
        let earlier = over.drop_last();
        let last = over[over.len() - 1];
        assert forall|i: int, j: int| 0 <= i < j < earlier.len() implies yaml_class(
            (#[trigger] earlier[i]).0,
        ) != yaml_class((#[trigger] earlier[j]).0) by {
            assert(earlier[i] == over[i] && earlier[j] == over[j]);
        }
        assert forall|i: int, j: int|
            0 <= i < under.len() && 0 <= j < earlier.len() implies yaml_class(
            (#[trigger] under[i]).0,
        ) != yaml_class((#[trigger] earlier[j]).0) by {
            assert(earlier[j] == over[j]);
        }
        law_new_entries_come_last(under, earlier);
        let before = under + earlier;
        assert forall|i: int| 0 <= i < before.len() implies yaml_class((#[trigger] before[i]).0)
            != yaml_class(last.0) by {
            if i < under.len() {
                assert(before[i] == under[i]);
            } else {
                assert(before[i] == over[i - under.len()]);
            }
        }
        lemma_no_key(before, last.0);
        assert(merged_entries(under, over) == before.push(last));
        assert(before.push(last) =~= under + over);
    }
}

proof fn lemma_no_key(entries: Seq<(YamlTree, YamlTree)>, key: YamlTree)
    requires
        forall|i: int|
            0 <= i < entries.len() ==> yaml_class((#[trigger] entries[i]).0) != yaml_class(key),
    ensures
        key_index(entries, key) == entries.len(),
    decreases entries.len(),
{
    if entries.len() > 0 {
        let rest = entries.drop_first();
        assert forall|i: int| 0 <= i < rest.len() implies yaml_class((#[trigger] rest[i]).0)
            != yaml_class(key) by {
            assert(rest[i] == entries[i + 1]);
        }
        lemma_no_key(rest, key);
        assert(yaml_class(entries[0].0) != yaml_class(key));
    }
}

} // verus!
