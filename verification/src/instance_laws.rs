//! What holds of the life of a machine: of the steps that start and stop it,
//! and of what becomes of what is asked for.

use vstd::prelude::*;

use crate::images::RENDER_INTERVAL_NANOS;
use crate::instance::is_stop_step;
use crate::instance::steps_from;
use crate::instance::StartStep;
use crate::instance::StopAction;
use crate::instance::StopPhase;
use crate::instance::StopSignal;
use crate::instance::EXIT_RETRY_MILLIS;
use crate::instance::PID_RETRY_MILLIS;
use crate::instance::PID_TRIES;
use crate::ssh::SSH_RETRY_MILLIS;
use crate::state::InstanceStatus;

verus! {

// ---------------------------------------------------------------------------
// Starting

/// How many of `steps` are `step`.
pub open spec fn occurrences(steps: Seq<StartStep>, step: StartStep) -> nat
    decreases steps.len(),
{
    if steps.len() == 0 {
        0
    } else {
        occurrences(steps.drop_last(), step) + if steps.last() == step {
            1nat
        } else {
            0nat
        }
    }
}

/// A machine that does not run is launched, once, whether or not its serial log
/// is shown: after what it needs was checked, right after what an earlier run
/// left was cleared, and right before it is waited for its pid file and then
/// for SSH.
pub proof fn law_stopped_machine_is_launched(show_serial: bool) -> (at: int)
    ensures
        steps_from(InstanceStatus::Stopped, show_serial) is Some,
        occurrences(
            steps_from(InstanceStatus::Stopped, show_serial)->Some_0,
            StartStep::Launch,
        ) == 1,
        3 <= at,
        at + 3 == steps_from(InstanceStatus::Stopped, show_serial)->Some_0.len(),
        steps_from(InstanceStatus::Stopped, show_serial)->Some_0[at] == StartStep::Launch,
        steps_from(InstanceStatus::Stopped, show_serial)->Some_0[at - 1]
            == StartStep::ClearRuntime,
        steps_from(InstanceStatus::Stopped, show_serial)->Some_0[at + 1] == StartStep::WaitForPid,
        steps_from(InstanceStatus::Stopped, show_serial)->Some_0[at + 2]
            == (StartStep::WaitForSsh { show_serial }),
        steps_from(InstanceStatus::Stopped, show_serial)->Some_0.take(at).contains(
            StartStep::CheckArtifacts,
        ),
        steps_from(InstanceStatus::Stopped, show_serial)->Some_0.take(at).contains(
            StartStep::CheckDependencies { needs_launch: true },
        ),
{
    let steps = steps_from(InstanceStatus::Stopped, show_serial)->Some_0;
    reveal_with_fuel(occurrences, 8);
    assert(occurrences(steps, StartStep::Launch) == 1);
    assert(steps.take(3)[0] == (StartStep::CheckDependencies { needs_launch: true }));
    assert(steps.take(3)[1] == StartStep::CheckArtifacts);
    3
}

/// A machine that runs is left as it is: nothing of it is cleared and it is not
/// launched again; it is only waited for SSH, once it is known that the tools
/// for that are there.
pub proof fn law_running_machine_is_only_waited_for(show_serial: bool)
    ensures
        steps_from(InstanceStatus::Running, show_serial) is Some,
        occurrences(
            steps_from(InstanceStatus::Running, show_serial)->Some_0,
            StartStep::Launch,
        ) == 0,
        occurrences(
            steps_from(InstanceStatus::Running, show_serial)->Some_0,
            StartStep::ClearRuntime,
        ) == 0,
        steps_from(InstanceStatus::Running, show_serial)->Some_0.len() == 2,
        steps_from(InstanceStatus::Running, show_serial)->Some_0[0]
            == (StartStep::CheckDependencies { needs_launch: false }),
        steps_from(InstanceStatus::Running, show_serial)->Some_0[1]
            == (StartStep::WaitForSsh { show_serial: false }),
{
    reveal_with_fuel(occurrences, 4);
}

/// Whether the serial log is shown makes a difference only to how a machine is
/// waited for; and only a machine that is there is started.
pub proof fn law_showing_the_log_changes_nothing_else(status: InstanceStatus)
    ensures
        steps_from(status, true) is Some <==> steps_from(status, false) is Some,
        steps_from(status, true) is Some <==> status != InstanceStatus::Missing,
        steps_from(status, true) is Some ==> steps_from(status, true)->Some_0.drop_last()
            == steps_from(status, false)->Some_0.drop_last(),
{
    if status != InstanceStatus::Missing {
        assert(steps_from(status, true)->Some_0.drop_last() =~= steps_from(
            status,
            false,
        )->Some_0.drop_last());
    }
}

// ---------------------------------------------------------------------------
// Stopping

/// `action` kills the process `pid`.
pub open spec fn kills(action: StopAction) -> bool {
    action matches StopAction::Signal { signal, .. } && signal == StopSignal::Kill
}

/// `action` tells the process to end.
pub open spec fn tells_to_end(action: StopAction) -> bool {
    action matches StopAction::Signal { signal, .. } && signal == StopSignal::Term
}

/// `action` removes what is left of the machine `name`, and says that it was
/// stopped.
pub open spec fn finishes(action: StopAction, name: Seq<char>) -> bool {
    action matches StopAction::Clear { message } && message@ == "Stopped "@ + name
}

/// Once the process has ended, in whatever phase, the machine is stopped and
/// no signal is sent any more. A process that goes on after it was asked is
/// told to end, one that goes on after that is killed, and nothing else is done
/// to it; it is always the process of the machine that a signal goes to.
pub proof fn law_signals_only_while_it_runs(
    step: (StopPhase, StopAction),
    name: Seq<char>,
    pid: u32,
    phase: StopPhase,
    exited: bool,
)
    requires
        is_stop_step(step, name, pid, phase, exited),
    ensures
        exited ==> finishes(step.1, name) && step.0 == StopPhase::Over,
        kills(step.1) <==> !exited && phase == StopPhase::Terminated,
        kills(step.1) <==> step.0 == StopPhase::Killed,
        tells_to_end(step.1) <==> !exited && phase == StopPhase::Asked,
        tells_to_end(step.1) <==> step.0 == StopPhase::Terminated,
        step.1 is Clear <==> exited || phase == StopPhase::Killed || phase == StopPhase::Over,
        step.1 is Clear ==> finishes(step.1, name) && step.0 == StopPhase::Over,
        step.1 matches StopAction::Signal { pid: other, .. } ==> other == pid,
        step.1 matches StopAction::Signal { required, wait_secs, .. } ==> required == kills(step.1)
            && wait_secs == (if kills(step.1) {
            2u64
        } else {
            5u64
        }),
{
}

/// Where a machine was asked to stop, what happens to it depends only on when
/// its process ends: it is stopped at the first look at which it has ended, or
/// at the third one; it is told to end only after it went on once, and killed
/// only after it went on twice.
pub proof fn law_stopping_ends(
    name: Seq<char>,
    pid: u32,
    steps: Seq<(StopPhase, StopAction)>,
    exits: Seq<bool>,
    i: int,
)
    requires
        steps.len() == exits.len() + 1,
        steps[0].0 == StopPhase::Asked,
        forall|k: int|
            0 <= k < exits.len() ==> is_stop_step(
                steps[k + 1],
                name,
                pid,
                steps[k].0,
                #[trigger] exits[k],
            ),
        0 <= i < exits.len(),
    ensures
        exits[i] || i >= 2 ==> finishes(steps[i + 1].1, name),
        kills(steps[i + 1].1) <==> i == 1 && !exits[0] && !exits[1],
        tells_to_end(steps[i + 1].1) <==> i == 0 && !exits[0],
    decreases i,
{
    assert(is_stop_step(steps[i + 1], name, pid, steps[i].0, exits[i]));
    if i > 0 {
        assert(is_stop_step(steps[(i - 1) + 1], name, pid, steps[i - 1].0, exits[i - 1]));
        law_stopping_ends(name, pid, steps, exits, i - 1);
        law_signals_only_while_it_runs(steps[i], name, pid, steps[i - 1].0, exits[i - 1]);
        if i >= 2 {
            assert(is_stop_step(steps[(i - 2) + 1], name, pid, steps[i - 2].0, exits[i - 2]));
            lemma_over_after_two(name, pid, steps, exits, i);
        }
    }
    law_signals_only_while_it_runs(steps[i + 1], name, pid, steps[i].0, exits[i]);
}

proof fn lemma_over_after_two(
    name: Seq<char>,
    pid: u32,
    steps: Seq<(StopPhase, StopAction)>,
    exits: Seq<bool>,
    i: int,
)
    requires
        steps.len() == exits.len() + 1,
        steps[0].0 == StopPhase::Asked,
        forall|k: int|
            0 <= k < exits.len() ==> is_stop_step(
                steps[k + 1],
                name,
                pid,
                steps[k].0,
                #[trigger] exits[k],
            ),
        2 <= i < exits.len(),
    ensures
        steps[i].0 == StopPhase::Killed || steps[i].0 == StopPhase::Over,
    decreases i,
{
    assert(is_stop_step(steps[(i - 1) + 1], name, pid, steps[i - 1].0, exits[i - 1]));
    if i > 2 {
        lemma_over_after_two(name, pid, steps, exits, i - 1);
    } else {
        assert(is_stop_step(steps[1], name, pid, steps[0].0, exits[0]));
    }
}

// ---------------------------------------------------------------------------
// Waiting

/// The pid file is waited for five seconds, in steps that are not longer than a
/// tenth of a second; whether a machine has ended is looked at four times a
/// second, and whether it answers twice; and the progress of a download is shown
/// eight times a second at most.
pub proof fn law_waits()
    ensures
        PID_TRIES * PID_RETRY_MILLIS == 5000,
        PID_RETRY_MILLIS == 100,
        4 * EXIT_RETRY_MILLIS == 1000,
        2 * SSH_RETRY_MILLIS == 1000,
        8 * RENDER_INTERVAL_NANOS == 1_000_000_000,
{
}

} // verus!
