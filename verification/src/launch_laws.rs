//! What holds of the way to a running machine: of the acceleration, of the
//! firmware, of attempts that failed, and of the conversation with QEMU.

use vstd::prelude::*;

use crate::json::json_parsed;
use crate::json::json_written;
use crate::json::JsonTree;
use crate::qemu::attempt_text;
use crate::qemu::execute_text;
use crate::qemu::firmware_of;
use crate::qemu::first_complete;
use crate::qemu::is_complete;
use crate::qemu::is_qmp_step;
use crate::qemu::launch_failure;
use crate::qemu::message_member;
use crate::qemu::resolved;
use crate::qemu::QmpAction;
use crate::qemu::QmpPhase;
use crate::qemu::QmpSession;
use crate::reading::after;
use crate::reading::lemma_mark;
use crate::reading::starts_at;
use crate::state::AccelMode;
use crate::state::GuestArch;
use crate::text::begins_with;
use crate::text::contains_text;
use crate::text::joined;
use crate::text::lemma_contains_within;
use crate::text::lemma_first_index_is;
use crate::text::lemma_joined_contains;
use crate::text::occurs_at;
use crate::text::split_at_first;

verus! {

// ---------------------------------------------------------------------------
// Acceleration

/// A machine is accelerated where and only where that can be had: with HVF on
/// macOS and with KVM on Linux that has it, if that or nothing in particular is
/// asked for. Otherwise what is missing is named.
pub proof fn law_accelerations(configured: AccelMode, os: Seq<char>, kvm: bool)
    ensures
        resolved(configured, os, kvm) == Ok::<AccelMode, Seq<char>>(AccelMode::Hvf) <==> os
            == "macos"@ && (configured == AccelMode::Auto || configured == AccelMode::Hvf),
        resolved(configured, os, kvm) == Ok::<AccelMode, Seq<char>>(AccelMode::Kvm) <==> os
            == "linux"@ && kvm && (configured == AccelMode::Auto || configured == AccelMode::Kvm),
        resolved(configured, os, kvm) matches Ok(accel) ==> accel == AccelMode::Hvf || accel
            == AccelMode::Kvm,
        os == "linux"@ && !kvm && (configured == AccelMode::Auto || configured == AccelMode::Kvm)
            ==> (resolved(configured, os, kvm) matches Err(message) && contains_text(
            message,
            "/dev/kvm is unavailable"@,
        )),
        configured == AccelMode::Tcg ==> (resolved(configured, os, kvm) matches Err(message)
            && begins_with(message, "TCG acceleration is disabled"@)),
        configured == AccelMode::Hvf && os != "macos"@ ==> (resolved(
            configured,
            os,
            kvm,
        ) matches Err(message) && begins_with(message, "acceleration mode hvf is not"@)),
        configured == AccelMode::Kvm && os != "linux"@ ==> (resolved(
            configured,
            os,
            kvm,
        ) matches Err(message) && begins_with(message, "acceleration mode kvm is not"@)),
        configured == AccelMode::Auto && os != "linux"@ && os != "macos"@ ==> (resolved(
            configured,
            os,
            kvm,
        ) matches Err(message) && begins_with(message, "automatic acceleration is only"@)),
{
    reveal_strlit("macos");
    reveal_strlit("linux");
    assert("macos"@[0] == 'm' && "linux"@[0] == 'l');
    if os == "linux"@ && !kvm && (configured == AccelMode::Auto || configured == AccelMode::Kvm) {
        reveal_strlit(
            "Hardpass requires KVM acceleration on Linux, but /dev/kvm is unavailable on this host. Hardpass will not fall back to TCG; run on a KVM-enabled Linux host/runner or choose a different supported accel mode.",
        );
        reveal_strlit("/dev/kvm is unavailable");
        let message = resolved(configured, os, kvm)->Err_0;
        assert(message.subrange(49, 72) =~= "/dev/kvm is unavailable"@);
        assert(occurs_at(message, "/dev/kvm is unavailable"@, 49));
    }
    if configured == AccelMode::Tcg {
        reveal_strlit(
            "TCG acceleration is disabled in Hardpass. Use KVM on Linux or HVF on macOS instead.",
        );
        reveal_strlit("TCG acceleration is disabled");
        let message = resolved(configured, os, kvm)->Err_0;
        assert(message.take(28) =~= "TCG acceleration is disabled"@);
    }
    reveal_strlit("acceleration mode ");
    reveal_strlit(" is not supported on this host");
    reveal_strlit("hvf");
    reveal_strlit("kvm");
    reveal_strlit("acceleration mode hvf is not");
    reveal_strlit("acceleration mode kvm is not");
    if configured == AccelMode::Hvf && os != "macos"@ {
        let message = resolved(configured, os, kvm)->Err_0;
        assert(message.take(28) =~= "acceleration mode hvf is not"@);
    }
    if configured == AccelMode::Kvm && os != "linux"@ {
        let message = resolved(configured, os, kvm)->Err_0;
        assert(message.take(28) =~= "acceleration mode kvm is not"@);
    }
    if configured == AccelMode::Auto && os != "linux"@ && os != "macos"@ {
        reveal_strlit(
            "automatic acceleration is only supported on macOS (HVF) and Linux with /dev/kvm (KVM)",
        );
        reveal_strlit("automatic acceleration is only");
        let message = resolved(configured, os, kvm)->Err_0;
        assert(message.take(30) =~= "automatic acceleration is only"@);
    }
}

// ---------------------------------------------------------------------------
// Firmware

/// Code and variables of a firmware are both among `files`.
pub open spec fn has_both(files: Seq<Seq<char>>, code: Seq<char>, vars: Seq<char>) -> bool {
    files.contains(code) && files.contains(vars)
}

/// The firmware that is used is there, code and variables of one place. Of the
/// places where it may be, Homebrew on Apple silicon comes first, then Homebrew
/// on Intel, then Debian's package of its own, then the one that comes with
/// QEMU; there is none exactly if no place has both files.
pub proof fn law_firmware(files: Seq<Seq<char>>)
    ensures
        ({
            let brew = (
                "/opt/homebrew/share/qemu/edk2-aarch64-code.fd"@,
                "/opt/homebrew/share/qemu/edk2-arm-vars.fd"@,
            );
            let local = (
                "/usr/local/share/qemu/edk2-aarch64-code.fd"@,
                "/usr/local/share/qemu/edk2-arm-vars.fd"@,
            );
            let debian = ("/usr/share/AAVMF/AAVMF_CODE.fd"@, "/usr/share/AAVMF/AAVMF_VARS.fd"@);
            let plain = (
                "/usr/share/qemu/edk2-aarch64-code.fd"@,
                "/usr/share/qemu/edk2-arm-vars.fd"@,
            );
            let found = |place: (Seq<char>, Seq<char>)| has_both(files, place.0, place.1);
            &&& found(brew) ==> firmware_of(files) == Some(brew)
            &&& found(local) && !found(brew) ==> firmware_of(files) == Some(local)
            &&& found(debian) && !found(brew) && !found(local) ==> firmware_of(files) == Some(debian)
            &&& found(plain) && !found(brew) && !found(local) && !found(debian) ==> firmware_of(files)
                == Some(plain)
            &&& firmware_of(files) is Some <==> found(brew) || found(local) || found(debian) || found(plain)
        }),
        firmware_of(files) matches Some(place) ==> files.contains(place.0) && files.contains(
            place.1,
        ),
{
    reveal_with_fuel(first_complete, 5);
    let all = crate::qemu::firmware_places();
    assert(all.drop_first().first() == all[1]);
    assert(all.drop_first().drop_first().first() == all[2]);
    assert(all.drop_first().drop_first().drop_first().first() == all[3]);
    assert(all.drop_first().drop_first().drop_first().drop_first().len() == 0);
    assert(is_complete(all[0], files) == has_both(files, all[0].0, all[0].1));
    assert(is_complete(all[1], files) == has_both(files, all[1].0, all[1].1));
    assert(is_complete(all[2], files) == has_both(files, all[2].0, all[2].1));
    assert(is_complete(all[3], files) == has_both(files, all[3].0, all[3].1));
}

/// More files never take the firmware away, and files that are no firmware make
/// no difference.
pub proof fn law_firmware_with_more_files(files: Seq<Seq<char>>, more: Seq<Seq<char>>)
    requires
        forall|i: int| 0 <= i < files.len() ==> more.contains(#[trigger] files[i]),
    ensures
        firmware_of(files) is Some ==> firmware_of(more) is Some,
        (forall|i: int| 0 <= i < more.len() ==> files.contains(#[trigger] more[i])) ==> firmware_of(
            more,
        ) == firmware_of(files),
{
    law_firmware(files);
    law_firmware(more);
    assert forall|file: Seq<char>| files.contains(file) implies #[trigger] more.contains(file) by {
        let i = choose|i: int| 0 <= i < files.len() && files[i] == file;
        assert(more.contains(files[i]));
    }
    if forall|i: int| 0 <= i < more.len() ==> files.contains(#[trigger] more[i]) {
        assert forall|file: Seq<char>| more.contains(file) implies #[trigger] files.contains(
            file,
        ) by {
            let i = choose|i: int| 0 <= i < more.len() && more[i] == file;
            assert(files.contains(more[i]));
        }
    }
}

// ---------------------------------------------------------------------------
// Attempts that failed

/// Where no attempt to start a machine succeeded, it is said which emulator was
/// called, and of every attempt with which acceleration and why it failed.
pub proof fn law_failed_attempts_are_told(
    arch: GuestArch,
    errors: Seq<Seq<char>>,
    i: int,
    accel: AccelMode,
    reason: Seq<char>,
)
    requires
        0 <= i < errors.len(),
        errors[i] == attempt_text(accel, reason),
    ensures
        contains_text(launch_failure(arch, errors), reason),
        accel == AccelMode::Hvf ==> contains_text(
            launch_failure(arch, errors),
            "hvf: "@ + reason,
        ),
        accel == AccelMode::Kvm ==> contains_text(
            launch_failure(arch, errors),
            "kvm: "@ + reason,
        ),
        begins_with(
            launch_failure(arch, errors),
            match arch {
                GuestArch::Amd64 => "qemu-system-x86_64 launch"@,
                GuestArch::Arm64 => "qemu-system-aarch64 launch"@,
            },
        ),
{
    reveal_strlit("hvf");
    reveal_strlit("kvm");
    reveal_strlit(": ");
    reveal_strlit("hvf: ");
    reveal_strlit("kvm: ");
    let told = errors[i];
    let all = launch_failure(arch, errors);
    let front = arch.spec_binary() + " launch attempts failed: "@;
    let none = Seq::<char>::empty();
    let body = joined(errors, "; "@);
    assert(told.subrange(told.len() - reason.len(), told.len() as int) =~= reason);
    assert(occurs_at(told, reason, told.len() - reason.len()));
    lemma_joined_contains(errors, "; "@, i, reason);
    lemma_contains_within(body, front, none, reason);
    assert(told.subrange(0, told.len() as int) =~= told);
    assert(occurs_at(told, told, 0));
    lemma_joined_contains(errors, "; "@, i, told);
    lemma_contains_within(body, front, none, told);
    assert(all =~= front + body + none);
    if accel == AccelMode::Hvf {
        assert(told =~= "hvf: "@ + reason);
    }
    if accel == AccelMode::Kvm {
        assert(told =~= "kvm: "@ + reason);
    }
    reveal_strlit("qemu-system-x86_64");
    reveal_strlit("qemu-system-aarch64");
    reveal_strlit(" launch attempts failed: ");
    reveal_strlit("qemu-system-x86_64 launch");
    reveal_strlit("qemu-system-aarch64 launch");
    match arch {
        GuestArch::Amd64 => {
            assert(all.take(25) =~= "qemu-system-x86_64 launch"@);
        },
        GuestArch::Arm64 => {
            assert(all.take(26) =~= "qemu-system-aarch64 launch"@);
        },
    }
}

// ---------------------------------------------------------------------------
// The conversation with QEMU

/// A member is there, written as JSON.
pub open spec fn is_there(member: Result<Option<Seq<char>>, Seq<char>>) -> bool {
    member matches Ok(Some(_))
}

/// What is done after a message: a message that cannot be read, or that says
/// that something failed, ends the conversation, and the reason is handed on;
/// an answer to the command ends it well; whatever comes first is taken for the
/// greeting; and anything else, such as an event, is passed over.
pub proof fn law_conversation(
    action: QmpAction,
    before: QmpSession,
    after: QmpSession,
    returned: Result<Option<Seq<char>>, Seq<char>>,
    failed: Result<Option<Seq<char>>, Seq<char>>,
)
    requires
        is_qmp_step(action, before, after, returned, failed),
    ensures
        after.command@ == before.command@,
        action is Done <==> before.phase == QmpPhase::Command && is_there(returned),
        action is Fail <==> returned is Err || (before.phase != QmpPhase::Greeting && !is_there(
            returned,
        ) && is_there(failed)),
        action is Read <==> returned is Ok && before.phase != QmpPhase::Greeting && !is_there(
            returned,
        ) && !is_there(failed),
        action is Send <==> after.phase != before.phase,
        returned is Ok && before.phase == QmpPhase::Greeting ==> after.phase
            == QmpPhase::Capabilities && (action matches QmpAction::Send(text) && text@
            == execute_text("qmp_capabilities"@)),
        is_there(returned) && before.phase == QmpPhase::Capabilities ==> after.phase
            == QmpPhase::Command && (action matches QmpAction::Send(text) && text@ == execute_text(
            before.command@,
        )),
        action matches QmpAction::Fail(error) ==> {
            &&& returned matches Err(reason) ==> error.message@ == reason
            &&& returned is Ok ==> (failed matches Ok(Some(text)) && contains_text(
                error.message@,
                text,
            ))
        },
{
    if let QmpAction::Fail(error) = action {
        if returned is Ok {
            let text = failed->Ok_0->Some_0;
            let message = error.message@;
            let at = message.len() - text.len();
            assert(message.subrange(at, message.len() as int) =~= text);
            assert(occurs_at(message, text, at));
        }
    }
}

/// A command is given as it is, in an object with nothing else in it.
pub proof fn law_command_is_given(command: Seq<char>)
    ensures
        begins_with(execute_text(command), "{\"execute\":\""@ + command + "\"}"@),
        execute_text(command).len() == command.len() + 15,
{
    reveal_strlit("{\"execute\":\"");
    reveal_strlit("\"}\n");
    reveal_strlit("\"}");
    let front = "{\"execute\":\""@ + command + "\"}"@;
    assert(execute_text(command).take(front.len() as int) =~= front);
}

/// A command is given as one line, in which QEMU finds it as the text after
/// `"execute":`.
pub proof fn law_command_is_read(command: Seq<char>)
    requires
        !command.contains('"'),
        !command.contains('\n'),
    ensures
        after(execute_text(command), "\"execute\":\""@) matches Some(rest) && split_at_first(
            rest,
            '"',
        ) == Some((command, "}\n"@)),
        execute_text(command)[0] == '{',
        execute_text(command).last() == '\n',
        forall|i: int|
            0 <= i < execute_text(command).len() - 1 ==> execute_text(command)[i] != '\n',
{
    reveal_strlit("{\"execute\":\"");
    reveal_strlit("\"execute\":\"");
    reveal_strlit("\"}\n");
    reveal_strlit("}\n");
    reveal_strlit("{");
    let all = execute_text(command);
    let mark = "\"execute\":\""@;
    let rest = command + "\"}\n"@;
    let front = seq!['{'];
    assert(all =~= front + mark + rest);
    assert(!starts_at(front + mark + rest, mark, 0)) by {
        if starts_at(all, mark, 0) {
            assert(all.subrange(0, mark.len() as int)[0] == '"');
        }
    }
    lemma_mark(front, mark, rest);
    let n = command.len() as int;
    assert forall|i: int| 0 <= i < n implies rest[i] != '"' by {
        assert(command.contains(command[i]));
    }
    assert(rest[n] == '"');
    lemma_first_index_is(rest, '"', n);
    assert(rest.take(n) =~= command);
    assert(rest.skip(n + 1) =~= "}\n"@);
    assert forall|i: int| 0 <= i < all.len() - 1 implies all[i] != '\n' by {
        if 12 <= i < 12 + n {
            assert(all[i] == command[i - 12]);
            assert(command.contains(command[i - 12]));
        }
    }
}

/// A member is looked up in what a message holds under its key, and in nothing
/// else: it is there exactly if the message is an object that has the key.
pub proof fn law_member_is_looked_up(text: Seq<char>, key: Seq<char>)
    ensures
        message_member(text, key) is Err <==> json_parsed(text) is Err,
        json_parsed(text) matches Err(reason) ==> message_member(text, key) == Err::<
            Option<Seq<char>>,
            Seq<char>,
        >(reason),
        json_parsed(text) matches Ok(JsonTree::Object(members)) ==> {
            &&& members.contains_key(key) ==> message_member(text, key) == Ok::<
                Option<Seq<char>>,
                Seq<char>,
            >(Some(json_written(members[key])))
            &&& !members.contains_key(key) ==> message_member(text, key) == Ok::<
                Option<Seq<char>>,
                Seq<char>,
            >(None)
        },
        json_parsed(text) matches Ok(JsonTree::Other(_)) ==> message_member(text, key) == Ok::<
            Option<Seq<char>>,
            Seq<char>,
        >(None),
{
}

} // verus!
