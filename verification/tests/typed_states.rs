use katas::typed_states::{Off, Running};

#[test]
fn ifraixedes_from_turn_off_when_off() {
    // The compiler already refuses to turn off a computer that is off:
    // there is no conversion from `Off` to `Off`.
}

#[test]
fn ifraixedes_from_turn_off_when_running() {
    assert_eq!(
        Off::from(Running {
            uptime: 34,
            idle_time: 43
        }),
        Off {},
    )
}

#[test]
fn typed_turn_on_when_off() {
    assert_eq!(
        Running::from(Off {}),
        Running {
            uptime: 0,
            idle_time: 0
        },
    )
}
