use dht11::{Action, Error, Event, Level, Measure, Mode, Reading};

/// What the driver carried out and what the reading reported.
struct Outcome {
    result: Result<Measure, Error>,
    handshake: Vec<String>,
    samples: usize,
}

/// The sensor's side of the line: `(level, nanoseconds)` segments from the
/// moment the host releases the line; after the last one the line idles high.
fn level_at(timeline: &[(Level, u64)], t: u64) -> Level {
    let mut start: u64 = 0;
    for &(level, len) in timeline {
        if t < start + len {
            return level;
        }
        start += len;
    }
    Level::High
}

fn frame_timeline(bytes: [u8; 5]) -> Vec<(Level, u64)> {
    let mut timeline = vec![(Level::High, 20_000), (Level::Low, 80_000), (Level::High, 80_000)];
    for byte in bytes {
        for i in (0..8).rev() {
            let one = (byte >> i) & 1 == 1;
            timeline.push((Level::Low, 50_000));
            timeline.push((Level::High, if one { 70_000 } else { 26_000 }));
        }
    }
    timeline.push((Level::Low, 50_000));
    timeline
}

/// Drives a reading against a simulated line, sampling once a microsecond.
/// `fault_at` makes the driver fail on that event instead of carrying out
/// the action.
fn drive(timeline: &[(Level, u64)], fault_at: Option<usize>) -> Outcome {
    let mut reading = Reading::new();
    let mut clock: u64 = 1_000_000;
    let mut listen_at: u64 = 0;
    let mut handshake = Vec::new();
    let mut samples: usize = 0;
    let mut event = Event::Done(clock);
    let mut count: usize = 0;
    loop {
        assert!(!reading.is_finished());
        let action = reading.step(event);
        count += 1;
        if fault_at == Some(count) && !matches!(action, Action::Report(_)) {
            event = Event::Fault(rppal::gpio::Error::PinNotAvailable(23));
            continue;
        }
        event = match action {
            Action::SetMode(mode) => {
                handshake.push(format!("mode {:?}", mode));
                clock += 1_000;
                if mode == Mode::Input {
                    listen_at = clock;
                }
                Event::Done(clock)
            }
            Action::SetLevel(level) => {
                handshake.push(format!("level {:?}", level));
                clock += 1_000;
                Event::Done(clock)
            }
            Action::Sleep(us) => {
                handshake.push(format!("sleep {}", us));
                clock += us * 1_000;
                Event::Done(clock)
            }
            Action::Sample => {
                samples += 1;
                clock += 1_000;
                Event::Sampled(level_at(timeline, clock - listen_at), clock)
            }
            Action::Report(result) => {
                assert!(reading.is_finished());
                return Outcome { result, handshake, samples };
            }
        };
    }
}

#[test]
fn end_to_end_example() {
    let out = drive(&frame_timeline([0x32, 0x00, 0x1B, 0x00, 0x4D]), None);
    assert_eq!(out.result.unwrap(), Measure::new(27, 50));
}

#[test]
fn end_to_end_corrupt_example() {
    let out = drive(&frame_timeline([0x32, 0x00, 0x1B, 0x00, 0x4E]), None);
    assert!(matches!(out.result, Err(Error::CheckSum)));
}

#[test]
fn checksum_invariant_on_sample_frames() {
    let cases: [[u8; 4]; 5] = [
        [0x00, 0x00, 0x00, 0x00],
        [0xFF, 0xFF, 0xFF, 0xFF],
        [0x41, 0x07, 0x16, 0x09],
        [0x80, 0x80, 0x01, 0x7F],
        [0x5A, 0xA5, 0x33, 0xCC],
    ];
    for [h, hf, t, tf] in cases {
        let sum = h.wrapping_add(hf).wrapping_add(t).wrapping_add(tf);
        let good = drive(&frame_timeline([h, hf, t, tf, sum]), None);
        assert_eq!(good.result.unwrap(), Measure::new(t, h));
        let bad = drive(&frame_timeline([h, hf, t, tf, sum.wrapping_add(1)]), None);
        assert!(matches!(bad.result, Err(Error::CheckSum)));
    }
}

#[test]
fn handshake_sequence() {
    let out = drive(&frame_timeline([0x32, 0x00, 0x1B, 0x00, 0x4D]), None);
    assert_eq!(
        out.handshake,
        vec![
            "mode Output",
            "level High",
            "sleep 5",
            "level Low",
            "sleep 20000",
            "level High",
            "mode Input",
        ]
    );
}

#[test]
fn silent_sensor_times_out() {
    let out = drive(&[], None);
    assert!(matches!(out.result, Err(Error::TimeOut)));
    // one sample a microsecond, until the line has held high for over 250 ms
    assert_eq!(out.samples, 250_001);
}

#[test]
fn silent_sensor_times_out_on_every_retry() {
    for _ in 0..3 {
        assert!(matches!(drive(&[], None).result, Err(Error::TimeOut)));
    }
    let after = drive(&frame_timeline([0x32, 0x00, 0x1B, 0x00, 0x4D]), None);
    assert_eq!(after.result.unwrap(), Measure::new(27, 50));
}

#[test]
fn sensor_stuck_low_mid_frame_times_out() {
    let mut timeline = frame_timeline([0x32, 0x00, 0x1B, 0x00, 0x4D]);
    timeline.truncate(20);
    timeline.push((Level::Low, 400_000_000));
    assert!(matches!(drive(&timeline, None).result, Err(Error::TimeOut)));
}

#[test]
fn sensor_stuck_low_after_ack_times_out() {
    let timeline = [(Level::High, 20_000), (Level::Low, 300_000_000)];
    assert!(matches!(drive(&timeline, None).result, Err(Error::TimeOut)));
}

#[test]
fn fault_during_handshake_is_reported_at_once() {
    let out = drive(&frame_timeline([0x32, 0x00, 0x1B, 0x00, 0x4D]), Some(2));
    assert!(matches!(out.result, Err(Error::Gpio(rppal::gpio::Error::PinNotAvailable(23)))));
    assert_eq!(out.handshake, vec!["mode Output"]);
    assert_eq!(out.samples, 0);
}

#[test]
fn fault_while_sampling_is_reported_at_once() {
    let out = drive(&frame_timeline([0x32, 0x00, 0x1B, 0x00, 0x4D]), Some(20));
    assert!(matches!(out.result, Err(Error::Gpio(_))));
    assert_eq!(out.handshake.len(), 7);
}

#[test]
fn first_event_starts_the_handshake() {
    let mut reading = Reading::new();
    assert!(!reading.is_finished());
    assert!(matches!(reading.step(Event::Done(0)), Action::SetMode(Mode::Output)));
}

#[test]
fn done_while_listening_asks_for_a_sample() {
    let mut reading = Reading::new();
    for t in 0..8u64 {
        reading.step(Event::Done(t));
    }
    assert!(matches!(reading.step(Event::Done(9)), Action::Sample));
    assert!(matches!(reading.step(Event::Sampled(Level::High, 10)), Action::Sample));
    assert!(matches!(
        reading.step(Event::Sampled(Level::High, 7 + 250_000_001)),
        Action::Report(Err(Error::TimeOut))
    ));
}
