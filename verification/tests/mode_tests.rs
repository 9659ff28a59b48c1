use spi_core::hal_02;
use spi_core::hal_1;
use spi_core::mode;
use spi_core::mode::Error;

fn hal_02_modes() -> Vec<hal_02::Mode> {
    vec![
        hal_02::Mode {
            polarity: hal_02::Polarity::IdleLow,
            phase: hal_02::Phase::CaptureOnFirstTransition,
        },
        hal_02::Mode {
            polarity: hal_02::Polarity::IdleLow,
            phase: hal_02::Phase::CaptureOnSecondTransition,
        },
        hal_02::Mode {
            polarity: hal_02::Polarity::IdleHigh,
            phase: hal_02::Phase::CaptureOnFirstTransition,
        },
        hal_02::Mode {
            polarity: hal_02::Polarity::IdleHigh,
            phase: hal_02::Phase::CaptureOnSecondTransition,
        },
    ]
}

fn hal_1_modes() -> Vec<hal_1::Mode> {
    vec![
        hal_1::Mode {
            polarity: hal_1::Polarity::IdleLow,
            phase: hal_1::Phase::CaptureOnFirstTransition,
        },
        hal_1::Mode {
            polarity: hal_1::Polarity::IdleLow,
            phase: hal_1::Phase::CaptureOnSecondTransition,
        },
        hal_1::Mode {
            polarity: hal_1::Polarity::IdleHigh,
            phase: hal_1::Phase::CaptureOnFirstTransition,
        },
        hal_1::Mode {
            polarity: hal_1::Polarity::IdleHigh,
            phase: hal_1::Phase::CaptureOnSecondTransition,
        },
    ]
}

#[test]
fn hal_02_mode_round_trips_over_all_four_encodings() {
    for m in hal_02_modes() {
        let core = m.to_core();
        assert_eq!(hal_02::Mode::of_core(core), m);
    }
}

#[test]
fn hal_1_mode_round_trips_over_all_four_encodings() {
    for m in hal_1_modes() {
        let core = m.to_core();
        assert_eq!(hal_1::Mode::of_core(core), m);
    }
}

#[test]
fn core_mode_round_trips_through_both_generations() {
    let cores = vec![
        mode::Mode { polarity: mode::Polarity::IdleLow, phase: mode::Phase::CaptureOnFirstTransition },
        mode::Mode { polarity: mode::Polarity::IdleLow, phase: mode::Phase::CaptureOnSecondTransition },
        mode::Mode { polarity: mode::Polarity::IdleHigh, phase: mode::Phase::CaptureOnFirstTransition },
        mode::Mode { polarity: mode::Polarity::IdleHigh, phase: mode::Phase::CaptureOnSecondTransition },
    ];
    for c in cores {
        assert_eq!(hal_02::Mode::of_core(c).to_core(), c);
        assert_eq!(hal_1::Mode::of_core(c).to_core(), c);
    }
}

#[test]
fn hal_02_polarity_and_phase_map_one_to_one() {
    assert_eq!(hal_02::Polarity::IdleLow.to_core(), mode::Polarity::IdleLow);
    assert_eq!(hal_02::Polarity::IdleHigh.to_core(), mode::Polarity::IdleHigh);
    assert_eq!(
        hal_02::Phase::CaptureOnFirstTransition.to_core(),
        mode::Phase::CaptureOnFirstTransition
    );
    assert_eq!(
        hal_02::Phase::CaptureOnSecondTransition.to_core(),
        mode::Phase::CaptureOnSecondTransition
    );
}

#[test]
fn hal_1_polarity_and_phase_map_one_to_one() {
    assert_eq!(hal_1::Polarity::IdleLow.to_core(), mode::Polarity::IdleLow);
    assert_eq!(hal_1::Polarity::IdleHigh.to_core(), mode::Polarity::IdleHigh);
    assert_eq!(
        hal_1::Phase::CaptureOnFirstTransition.to_core(),
        mode::Phase::CaptureOnFirstTransition
    );
    assert_eq!(
        hal_1::Phase::CaptureOnSecondTransition.to_core(),
        mode::Phase::CaptureOnSecondTransition
    );
}

#[test]
fn error_kinds_follow_the_newer_generation_vocabulary() {
    assert_eq!(Error::Overrun.kind(), hal_1::ErrorKind::Overrun);
    assert_eq!(Error::ModeFault.kind(), hal_1::ErrorKind::ModeFault);
    assert_eq!(Error::Crc.kind(), hal_1::ErrorKind::Other);
}
