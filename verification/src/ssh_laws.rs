//! What holds of the calls of SSH, read as SSH reads them.

use vstd::prelude::*;

use crate::reading::chosen;
use crate::reading::lemma_settings;
use crate::reading::settings;
use crate::reading::spelled;
use crate::ssh::common_args;
use crate::ssh::remote_failure;
use crate::ssh::target;
use crate::ssh::ExecOutput;
use crate::state::SshConfig;
use crate::text::contains_text;
use crate::text::decimal;
use crate::text::law_decimal_round_trip;
use crate::text::lemma_first_index_is;
use crate::text::occurs_at;
use crate::text::parsed_number;
use crate::text::split_at_first;

verus! {

/// The values that the arguments of a call give to an option of SSH.
pub open spec fn asked(args: Seq<Seq<char>>, option: Seq<char>) -> Seq<Seq<char>> {
    settings(args, Set::empty(), option)
}

spec fn common_pairs(config: SshConfig, batch_mode: bool) -> Seq<(Seq<char>, Seq<char>)> {
    let pairs = seq![
        ("-i"@, config.identity_file@),
        ("-p"@, decimal(config.port as nat)),
        ("-o"@, "StrictHostKeyChecking=no"@),
        ("-o"@, "UserKnownHostsFile=/dev/null"@),
        ("-o"@, "IdentitiesOnly=yes"@),
        ("-o"@, "LogLevel=ERROR"@),
    ];
    if batch_mode {
        pairs.push(("-o"@, "BatchMode=yes"@))
    } else {
        pairs
    }
}

proof fn lemma_asked(config: SshConfig, batch_mode: bool, rest: Seq<Seq<char>>, option: Seq<char>)
    ensures
        asked(common_args(config, batch_mode) + rest, option) == chosen(
            common_pairs(config, batch_mode),
            option,
        ) + asked(rest, option),
{
    reveal_with_fuel(spelled, 8);
    let pairs = common_pairs(config, batch_mode);
    assert(spelled(pairs) =~= common_args(config, batch_mode));
    lemma_settings(pairs, rest, Set::empty(), option);
}

/// Every call goes to the port of the machine with its key and no other one;
/// it neither checks nor keeps the key of the host, and it asks nothing where
/// nobody is there to answer, and only there.
pub proof fn law_calls_reach_the_machine(config: SshConfig, batch_mode: bool)
    ensures
        asked(common_args(config, batch_mode), "-i"@) == seq![config.identity_file@],
        asked(common_args(config, batch_mode), "-p"@).len() == 1,
        parsed_number(asked(common_args(config, batch_mode), "-p"@)[0], 65535) == Some(
            config.port as nat,
        ),
        asked(common_args(config, batch_mode), "-o"@).len() == (if batch_mode {
            5int
        } else {
            4int
        }),
        asked(common_args(config, batch_mode), "-o"@).contains("StrictHostKeyChecking=no"@),
        asked(common_args(config, batch_mode), "-o"@).contains("UserKnownHostsFile=/dev/null"@),
        asked(common_args(config, batch_mode), "-o"@).contains("IdentitiesOnly=yes"@),
        asked(common_args(config, batch_mode), "-o"@).contains("LogLevel=ERROR"@),
        asked(common_args(config, batch_mode), "-o"@).contains("BatchMode=yes"@) <==> batch_mode,
        common_args(config, batch_mode).len() == (if batch_mode {
            14int
        } else {
            12int
        }),
{
    let args = common_args(config, batch_mode);
    let none = Seq::<Seq<char>>::empty();
    assert(args + none =~= args);
    reveal_strlit("-i");
    reveal_strlit("-p");
    reveal_strlit("-o");
    assert("-i"@[1] == 'i' && "-p"@[1] == 'p' && "-o"@[1] == 'o');
    assert(asked(args, "-i"@) =~= seq![config.identity_file@]) by {
        reveal_with_fuel(chosen, 9);
        lemma_asked(config, batch_mode, none, "-i"@);
    }
    assert(asked(args, "-p"@) =~= seq![decimal(config.port as nat)]) by {
        reveal_with_fuel(chosen, 9);
        lemma_asked(config, batch_mode, none, "-p"@);
    }
    law_decimal_round_trip(config.port as nat, 65535);
    let four = seq![
        "StrictHostKeyChecking=no"@,
        "UserKnownHostsFile=/dev/null"@,
        "IdentitiesOnly=yes"@,
        "LogLevel=ERROR"@,
    ];
    let all = if batch_mode {
        four.push("BatchMode=yes"@)
    } else {
        four
    };
    assert(asked(args, "-o"@) =~= all) by {
        reveal_with_fuel(chosen, 9);
        lemma_asked(config, batch_mode, none, "-o"@);
    }
    assert(all[0] == "StrictHostKeyChecking=no"@);
    assert(all[1] == "UserKnownHostsFile=/dev/null"@);
    assert(all[2] == "IdentitiesOnly=yes"@);
    assert(all[3] == "LogLevel=ERROR"@);
    if batch_mode {
        assert(all[4] == "BatchMode=yes"@);
    } else {
        reveal_strlit("StrictHostKeyChecking=no");
        reveal_strlit("UserKnownHostsFile=/dev/null");
        reveal_strlit("IdentitiesOnly=yes");
        reveal_strlit("LogLevel=ERROR");
        reveal_strlit("BatchMode=yes");
        assert("BatchMode=yes"@[0] == 'B');
        assert("StrictHostKeyChecking=no"@[0] == 'S' && "UserKnownHostsFile=/dev/null"@[0] == 'U'
            && "IdentitiesOnly=yes"@[0] == 'I' && "LogLevel=ERROR"@[0] == 'L');
    }
}

/// A call goes to the user of the machine at the address of the machine.
pub proof fn law_call_goes_to_the_user(config: SshConfig)
    ensures
        target(config).len() == config.user@.len() + 1 + config.host@.len(),
        target(config).take(config.user@.len() as int) == config.user@,
        target(config)[config.user@.len() as int] == '@',
        target(config).skip(config.user@.len() + 1int) == config.host@,
        !config.user@.contains('@') ==> split_at_first(target(config), '@') == Some(
            (config.user@, config.host@),
        ),
{
    reveal_strlit("@");
    let text = target(config);
    let n = config.user@.len() as int;
    assert(text.take(n) =~= config.user@);
    assert(text.skip(n + 1) =~= config.host@);
    assert(text[n] == '@');
    if !config.user@.contains('@') {
        lemma_split_target(config);
    }
}

proof fn lemma_split_target(config: SshConfig)
    requires
        !config.user@.contains('@'),
    ensures
        split_at_first(target(config), '@') == Some((config.user@, config.host@)),
{
    reveal_strlit("@");
    let text = target(config);
    let n = config.user@.len() as int;
    assert forall|i: int| 0 <= i < n implies text[i] != '@' by {
        assert(config.user@.contains(config.user@[i]));
    }
    assert(text[n] == '@');
    lemma_first_index_is(text, '@', n);
    assert(text.take(n) =~= config.user@);
    assert(text.skip(n + 1) =~= config.host@);
}

/// What is said of a remote command that failed ends with its status.
pub proof fn law_failure_shows_the_status(output: ExecOutput)
    ensures
        remote_failure(output).len() > output.status@.len(),
        remote_failure(output).skip(remote_failure(output).len() - output.status@.len())
            == output.status@,
        contains_text(remote_failure(output), "exited with status "@ + output.status@),
{
    reveal_strlit("remote command exited with status ");
    reveal_strlit("exited with status ");
    let text = remote_failure(output);
    let end = "exited with status "@ + output.status@;
    assert(text.skip(text.len() - output.status@.len()) =~= output.status@);
    assert(text.subrange(15, 15 + end.len() as int) =~= end);
    assert(occurs_at(text, end, 15));
}

} // verus!
