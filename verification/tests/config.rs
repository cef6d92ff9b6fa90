use cw_serial_keyer::{validate_config, Config, ControlLine, Error};
use std::path::PathBuf;
use std::time::Duration;

fn config() -> Config {
    Config::new(PathBuf::from("/dev/null"))
}

#[test]
fn validates_lines() {
    let cfg = Config::new(PathBuf::from("/dev/null"))
        .key_line(ControlLine::Dtr)
        .ptt_line(Some(ControlLine::Dtr));
    assert!(matches!(validate_config(&cfg), Err(Error::ConflictingLines)));
}

#[test]
fn defaults() {
    let cfg = config();
    assert_eq!(cfg.path, PathBuf::from("/dev/null"));
    assert_eq!(cfg.baud_rate, 9600);
    assert_eq!(cfg.key_line, ControlLine::Dtr);
    assert_eq!(cfg.ptt_line, None);
    assert_eq!(cfg.wpm, 24);
    assert_eq!(cfg.weighting, 50);
    assert_eq!(cfg.ptt_lead, Duration::ZERO);
    assert_eq!(cfg.ptt_tail, Duration::ZERO);
    assert!(validate_config(&cfg).is_ok());
}

#[test]
fn builders_set_one_thing_each() {
    let cfg = config()
        .baud_rate(1200)
        .key_line(ControlLine::Rts)
        .ptt_line(Some(ControlLine::Dtr))
        .wpm(20)
        .weighting(60)
        .ptt_lead_tail(Duration::from_millis(10), Duration::from_millis(15));
    assert_eq!(cfg.path, PathBuf::from("/dev/null"));
    assert_eq!(cfg.baud_rate, 1200);
    assert_eq!(cfg.key_line, ControlLine::Rts);
    assert_eq!(cfg.ptt_line, Some(ControlLine::Dtr));
    assert_eq!(cfg.wpm, 20);
    assert_eq!(cfg.weighting, 60);
    assert_eq!(cfg.ptt_lead, Duration::from_millis(10));
    assert_eq!(cfg.ptt_tail, Duration::from_millis(15));
    assert!(validate_config(&cfg).is_ok());
}

#[test]
fn a_clone_is_the_same() {
    let cfg = config().wpm(31).ptt_lead_tail(Duration::from_millis(3), Duration::ZERO);
    let copy = cfg.clone();
    assert_eq!(copy.path, cfg.path);
    assert_eq!(copy.wpm, 31);
    assert_eq!(copy.ptt_lead, Duration::from_millis(3));
}

#[test]
fn speed_range() {
    for wpm in 0..=255_u8 {
        let checked = validate_config(&config().wpm(wpm));
        if (5..=99).contains(&wpm) {
            assert!(checked.is_ok());
        } else {
            assert!(matches!(checked, Err(Error::InvalidWpm(w)) if w == wpm));
        }
    }
}

#[test]
fn weighting_range() {
    for weighting in 0..=255_u8 {
        let checked = validate_config(&config().weighting(weighting));
        if (10..=90).contains(&weighting) {
            assert!(checked.is_ok());
        } else {
            assert!(matches!(checked, Err(Error::InvalidWeighting(w)) if w == weighting));
        }
    }
}

#[test]
fn the_first_fault_counts() {
    let cfg = config().wpm(0).weighting(0);
    assert!(matches!(validate_config(&cfg), Err(Error::InvalidWpm(0))));
    let cfg = cfg.ptt_line(Some(ControlLine::Dtr));
    assert!(matches!(validate_config(&cfg), Err(Error::ConflictingLines)));
}

#[test]
fn error_texts() {
    assert_eq!(
        Error::InvalidWpm(100).to_string(),
        "WPM must be in the range 5..=99, got 100"
    );
    assert_eq!(Error::InvalidWpm(4).to_string(), "WPM must be in the range 5..=99, got 4");
    assert_eq!(
        Error::InvalidWeighting(95).to_string(),
        "weighting must be in the range 10..=90, got 95"
    );
    assert_eq!(Error::Closed.to_string(), "keyer worker thread stopped");
    assert_eq!(Error::Timeout.to_string(), "operation timed out");
    assert_eq!(
        Error::ConflictingLines.to_string(),
        "key and PTT lines must be different when both are enabled"
    );
    for n in 0..=255_u8 {
        assert_eq!(
            Error::InvalidWpm(n).to_string(),
            format!("WPM must be in the range 5..=99, got {}", n)
        );
    }
}

#[test]
fn error_texts_with_a_cause() {
    let serial = serialport::Error::new(serialport::ErrorKind::NoDevice, "no such device");
    let error = Error::from(serial);
    assert!(matches!(error, Error::Serial(_)));
    assert_eq!(error.to_string(), "serial port error: no such device");
    assert_eq!(error.describe("unplugged"), "serial port error: unplugged");
    let io = std::io::Error::new(std::io::ErrorKind::Other, "bad luck");
    let error = Error::from(io);
    assert!(matches!(error, Error::Io(_)));
    assert_eq!(error.to_string(), "I/O error: bad luck");
}
