//! Ports of the host: which ones a machine is given.

use std::collections::BTreeSet;

use vstd::prelude::*;

use crate::error::Error;
use crate::state::PortForward;
use crate::text::decimal;
use crate::text::number;

verus! {

fn is_among(ports: &BTreeSet<u16>, port: u16) -> (found: bool)
    ensures
        found == ports@.contains(port),
{
    broadcast use vstd::std_specs::btree::group_btree_axioms;
    broadcast use vstd::laws_cmp::group_laws_cmp;

    ports.contains(&port)
}

pub(crate) fn note(ports: &mut BTreeSet<u16>, port: u16) -> (fresh: bool)
    ensures
        final(ports)@ == old(ports)@.insert(port),
        fresh == !old(ports)@.contains(port),
{
    broadcast use vstd::std_specs::btree::group_btree_axioms;
    broadcast use vstd::laws_cmp::group_laws_cmp;

    ports.insert(port)
}

/// The ports that a new machine is given.
#[derive(Debug, PartialEq, Eq)]
pub struct PortReservation {
    pub ssh_port: u16,
}

/// What to do next to reserve the ports of a machine.
#[derive(Debug, PartialEq, Eq)]
pub enum PortStep {
    /// Bind the port of the host of the forward with this index.
    Bind(usize),
    /// Bind a port that the system picks.
    Choose,
    /// The ports are reserved.
    Reserved(PortReservation),
    /// The ports cannot be had.
    Refused(Error),
}

/// The ports of the host that `forwards` take.
pub open spec fn host_ports(forwards: Seq<PortForward>) -> Seq<u16> {
    forwards.map_values(|forward: PortForward| forward.host)
}

/// What is said where a port belongs to another machine.
pub open spec fn reserved_message(port: u16) -> Seq<char> {
    "host port "@ + decimal(port as nat) + " is already reserved by another Hardpass VM"@
}

/// What is said where a port cannot be bound.
pub open spec fn unavailable_message(port: u16, reason: Seq<char>) -> Seq<char> {
    "host port "@ + decimal(port as nat) + " is unavailable: "@ + reason
}

/// `step` is what to do where the ports of the forwards before `index` are
/// bound.
pub open spec fn is_step_at(
    step: PortStep,
    requested: Seq<PortForward>,
    occupied: Set<u16>,
    index: int,
) -> bool {
    if index >= requested.len() {
        step == PortStep::Choose
    } else if occupied.contains(requested[index].host) {
        step matches PortStep::Refused(error)
            && error.message@ == reserved_message(requested[index].host)
            && error.cause is None
    } else {
        step == PortStep::Bind(index as usize)
    }
}

fn step_at(requested: &[PortForward], occupied: &BTreeSet<u16>, index: usize) -> (step: PortStep)
    ensures
        is_step_at(step, requested@, occupied@, index as int),
{
    if index >= requested.len() {
        return PortStep::Choose;
    }
    let port: u16 = requested[index].host;
    if is_among(occupied, port) {
        PortStep::Refused(
            Error::new(
                "host port ".to_owned().concat(number(port as u64).as_str()).concat(
                    " is already reserved by another Hardpass VM",
                ),
            ),
        )
    } else {
        PortStep::Bind(index)
    }
}

/// Begins to reserve the ports that `requested` takes and one for SSH, none
/// of them among `occupied`.
pub fn reserve_ports(requested: &[PortForward], occupied: &BTreeSet<u16>) -> (step: PortStep)
    ensures
        is_step_at(step, requested@, occupied@, 0),
{
    step_at(requested, occupied, 0)
}

/// What to do once the port of the forward with the index `index` was asked
/// for: `failure` says why it was not bound.
pub fn host_port_bound(
    requested: &[PortForward],
    occupied: &BTreeSet<u16>,
    index: usize,
    failure: Option<&str>,
) -> (step: PortStep)
    requires
        index < requested@.len(),
    ensures
        match failure {
            None => is_step_at(step, requested@, occupied@, index + 1),
            Some(reason) => step matches PortStep::Refused(error)
                && error.message@ == unavailable_message(
                requested@[index as int].host,
                reason@,
            ) && error.cause is None,
        },
{
    assert(index < requested.len());
    match failure {
        None => step_at(requested, occupied, index + 1),
        Some(reason) => PortStep::Refused(
            Error::new(
                "host port ".to_owned().concat(number(requested[index].host as u64).as_str()).concat(
                    " is unavailable: ",
                ).concat(reason),
            ),
        ),
    }
}

/// What to do once the system picked a port: one that is asked for or belongs
/// to another machine is given back, and another one is picked.
pub fn ssh_port_offered(
    requested: &[PortForward],
    occupied: &BTreeSet<u16>,
    offer: Result<u16, String>,
) -> (step: PortStep)
    ensures
        match offer {
            Ok(port) => if host_ports(requested@).contains(port) || occupied@.contains(port) {
                step == PortStep::Choose
            } else {
                step == PortStep::Reserved(PortReservation { ssh_port: port })
            },
            Err(reason) => step matches PortStep::Refused(error) && error.message@ == reason@
                && error.cause is None,
        },
{
    let port = match offer {
        Ok(port) => port,
        Err(reason) => return PortStep::Refused(Error::new(reason)),
    };
    for i in 0..requested.len()
        invariant
            offer == Ok::<u16, String>(port),
            forall|j: int| 0 <= j < i ==> requested@[j].host != port,
    {
        if requested[i].host == port {
            assert(host_ports(requested@)[i as int] == port);
            return PortStep::Choose;
        }
    }
    proof {
        assert forall|j: int| 0 <= j < requested@.len() implies host_ports(requested@)[j]
            != port by {
            assert(requested@[j].host != port);
        }
    }
    if is_among(occupied, port) {
        PortStep::Choose
    } else {
        PortStep::Reserved(PortReservation { ssh_port: port })
    }
}

/// The ports of the forwards from `index` on are free of `occupied`.
pub open spec fn free_from(requested: Seq<PortForward>, occupied: Set<u16>, index: int) -> bool {
    forall|i: int| index <= i < requested.len() ==> !occupied.contains(#[trigger] requested[i].host)
}

/// Where every port that is asked for can be bound, the ports are bound one
/// by one and a port is picked for SSH exactly if none of them belongs to
/// another machine: being refused means that one does.
pub proof fn law_refused_only_if_occupied(
    requested: Seq<PortForward>,
    occupied: Set<u16>,
    steps: Seq<PortStep>,
)
    requires
        steps.len() == requested.len() + 1,
        forall|i: int|
            0 <= i < steps.len() ==> is_step_at(#[trigger] steps[i], requested, occupied, i),
    ensures
        free_from(requested, occupied, 0) <==> forall|i: int|
            0 <= i < requested.len() ==> (#[trigger] steps[i]) == PortStep::Bind(i as usize),
        steps.last() == PortStep::Choose,
        !free_from(requested, occupied, 0) <==> exists|i: int|
            0 <= i < requested.len() && (#[trigger] steps[i]) is Refused,
{
    assert(is_step_at(steps[steps.len() - 1], requested, occupied, steps.len() - 1));
    if !free_from(requested, occupied, 0) {
        let i = choose|i: int|
            0 <= i < requested.len() && occupied.contains(#[trigger] requested[i].host);
        assert(is_step_at(steps[i], requested, occupied, i));
        assert(steps[i] is Refused);
    } else {
        assert forall|i: int| 0 <= i < requested.len() implies (#[trigger] steps[i])
            == PortStep::Bind(i as usize) by {
            assert(!occupied.contains(requested[i].host));
        }
    }
}

/// No forward takes the port for SSH, and no two take one port.
pub open spec fn are_apart(forwards: Seq<PortForward>, ssh_port: u16) -> bool {
    &&& forall|i: int| 0 <= i < forwards.len() ==> (#[trigger] forwards[i]).host != ssh_port
    &&& forall|i: int, j: int|
        0 <= i < j < forwards.len() ==> (#[trigger] forwards[i]).host != (
        #[trigger] forwards[j]).host
}

/// The forward with the index `i` takes a port that was taken before.
pub open spec fn is_repeated(forwards: Seq<PortForward>, ssh_port: u16, i: int) -> bool {
    0 <= i < forwards.len() && !are_apart(forwards.take(i + 1), ssh_port) && are_apart(
        forwards.take(i),
        ssh_port,
    )
}

/// Accepts forwards that take no port twice, nor the one for SSH; or else
/// names the first port that is taken again.
pub fn validate_forwards(forwards: &[PortForward], ssh_port: u16) -> (result: Result<(), Error>)
    ensures
        match result {
            Ok(_) => are_apart(forwards@, ssh_port),
            Err(error) => !are_apart(forwards@, ssh_port) && error.cause is None && exists|i: int|
                #[trigger] is_repeated(forwards@, ssh_port, i) && error.message@
                    == "duplicate host port requested: "@ + decimal(forwards@[i].host as nat),
        },
{
    let mut seen: BTreeSet<u16> = BTreeSet::new();
    note(&mut seen, ssh_port);
    for i in 0..forwards.len()
        invariant
            are_apart(forwards@.take(i as int), ssh_port),
            seen@.contains(ssh_port),
            forall|j: int| 0 <= j < i ==> seen@.contains(#[trigger] forwards@[j].host),
            forall|port: u16| #[trigger]
                seen@.contains(port) ==> port == ssh_port || exists|j: int|
                    0 <= j < i && (#[trigger] forwards@[j]).host == port,
    {
        let port: u16 = forwards[i].host;
        let ghost before = seen@;
        let ghost head = forwards@.take(i as int);
        let ghost next = forwards@.take(i + 1);
        let fresh = note(&mut seen, port);
        proof {
            assert forall|j: int| 0 <= j < i implies next[j] == head[j] by {}
            assert(next[i as int].host == port);
        }
        if !fresh {
            proof {
                assert(before.contains(port));
                if port != ssh_port {
                    let j = choose|j: int| 0 <= j < i && (#[trigger] forwards@[j]).host == port;
                    assert(next[j].host == next[i as int].host);
                    assert(forwards@[j].host == forwards@[i as int].host);
                }
                assert(is_repeated(forwards@, ssh_port, i as int));
                assert(!are_apart(forwards@, ssh_port));
            }
            return Err(
                Error::new(
                    "duplicate host port requested: ".to_owned().concat(
                        number(port as u64).as_str(),
                    ),
                ),
            );
        }
        proof {
            assert forall|j: int| 0 <= j < i implies (#[trigger] next[j]).host != port by {
                assert(before.contains(forwards@[j].host));
            }
            assert(are_apart(next, ssh_port)) by {
                assert forall|a: int| 0 <= a < next.len() implies (#[trigger] next[a]).host
                    != ssh_port by {
                    if a < i {
                        assert(head[a].host != ssh_port);
                    }
                }
                assert forall|a: int, b: int| 0 <= a < b < next.len() implies (
                #[trigger] next[a]).host != (#[trigger] next[b]).host by {
                    if b < i {
                        assert(head[a].host != head[b].host);
                    }
                }
            }
            assert forall|other: u16| #[trigger] seen@.contains(other) implies other == ssh_port
                || exists|j: int| 0 <= j < i + 1 && (#[trigger] forwards@[j]).host == other by {
                if other == port {
                    assert(forwards@[i as int].host == other);
                }
            }
        }
    }
    assert(forwards@.take(forwards@.len() as int) =~= forwards@);
    Ok(())
}

/// Ports that were reserved are accepted, if the forwards do not repeat each
/// other: the port that is picked for SSH is never one of theirs.
pub proof fn law_reserved_ports_are_apart(forwards: Seq<PortForward>, ssh_port: u16)
    requires
        !host_ports(forwards).contains(ssh_port),
    ensures
        are_apart(forwards, ssh_port) <==> host_ports(forwards).no_duplicates(),
{
    let ports = host_ports(forwards);
    assert forall|i: int| 0 <= i < forwards.len() implies (#[trigger] forwards[i]).host
        != ssh_port by {
        assert(ports[i] == forwards[i].host);
        assert(ports.contains(ports[i]));
    }
    if ports.no_duplicates() {
        assert forall|i: int, j: int| 0 <= i < j < forwards.len() implies (
        #[trigger] forwards[i]).host != (#[trigger] forwards[j]).host by {
            assert(ports[i] != ports[j]);
        }
    }
    if are_apart(forwards, ssh_port) {
        assert forall|i: int, j: int|
            0 <= i < ports.len() && 0 <= j < ports.len() && i != j implies ports[i] != ports[j] by {
            if i < j {
                assert(forwards[i].host != forwards[j].host);
            } else {
                assert(forwards[j].host != forwards[i].host);
            }
        }
    }
}

} // verus!
