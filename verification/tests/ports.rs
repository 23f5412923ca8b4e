use std::collections::BTreeSet;

use hardpass::ports::host_port_bound;
use hardpass::ports::reserve_ports;
use hardpass::ports::ssh_port_offered;
use hardpass::ports::validate_forwards;
use hardpass::ports::PortReservation;
use hardpass::ports::PortStep;
use hardpass::PortForward;

fn forward(host: u16, guest: u16) -> PortForward {
    PortForward { host, guest }
}

fn refusal(step: PortStep) -> String {
    match step {
        PortStep::Refused(error) => error.to_string(),
        other => panic!("unexpected step: {other:?}"),
    }
}

#[test]
fn duplicate_host_ports_fail() {
    let err = validate_forwards(
        &[
            PortForward {
                host: 8080,
                guest: 8080,
            },
            PortForward {
                host: 8080,
                guest: 9000,
            },
        ],
        2222,
    )
    .expect_err("should fail");
    assert!(err.to_string().contains("duplicate host port"));
    assert_eq!(err.to_string(), "duplicate host port requested: 8080");
}

#[test]
fn reserve_ports_rejects_occupied_host_forward() {
    let step = reserve_ports(
        &[PortForward {
            host: 8080,
            guest: 8080,
        }],
        &BTreeSet::from([8080]),
    );
    let message = refusal(step);
    assert!(message.contains("already reserved"));
    assert_eq!(
        message,
        "host port 8080 is already reserved by another Hardpass VM"
    );
}

#[test]
fn ssh_port_counts_as_taken() {
    let err = validate_forwards(&[forward(1, 1), forward(2222, 2)], 2222).expect_err("should fail");
    assert_eq!(err.to_string(), "duplicate host port requested: 2222");
    assert!(validate_forwards(&[forward(1, 1), forward(2, 1)], 2222).is_ok());
    assert!(validate_forwards(&[], 2222).is_ok());
}

#[test]
fn ports_are_bound_one_by_one() {
    let requested = [forward(80, 80), forward(81, 80)];
    let none = BTreeSet::new();
    assert_eq!(reserve_ports(&requested, &none), PortStep::Bind(0));
    assert_eq!(host_port_bound(&requested, &none, 0, None), PortStep::Bind(1));
    assert_eq!(host_port_bound(&requested, &none, 1, None), PortStep::Choose);
    assert_eq!(reserve_ports(&[], &none), PortStep::Choose);
    assert_eq!(
        refusal(host_port_bound(&requested, &BTreeSet::from([81]), 0, None)),
        "host port 81 is already reserved by another Hardpass VM"
    );
}

#[test]
fn port_that_cannot_be_bound_is_refused() {
    assert_eq!(
        refusal(host_port_bound(
            &[forward(80, 80)],
            &BTreeSet::new(),
            0,
            Some("Permission denied")
        )),
        "host port 80 is unavailable: Permission denied"
    );
}

#[test]
fn picked_port_is_neither_asked_for_nor_occupied() {
    let requested = [forward(80, 80)];
    let occupied = BTreeSet::from([90]);
    assert_eq!(ssh_port_offered(&requested, &occupied, Ok(80)), PortStep::Choose);
    assert_eq!(ssh_port_offered(&requested, &occupied, Ok(90)), PortStep::Choose);
    assert_eq!(
        ssh_port_offered(&requested, &occupied, Ok(91)),
        PortStep::Reserved(PortReservation { ssh_port: 91 })
    );
    assert_eq!(
        refusal(ssh_port_offered(&requested, &occupied, Err("no port".to_string()))),
        "no port"
    );
}
