use flashcards::gesture::{decode_samples, GestureDecoder, Pulse};

#[test]
fn displacement_is_measured_from_first_baseline() {
    assert_eq!(
        decode_samples(&vec![Some(0), Some(15), Some(25)]),
        vec![Pulse::Stay, Pulse::Stay, Pulse::Forward]
    );
}

#[test]
fn pulse_rebaselines() {
    assert_eq!(
        decode_samples(&vec![Some(0), Some(25), Some(30), Some(45), Some(51)]),
        vec![Pulse::Stay, Pulse::Forward, Pulse::Stay, Pulse::Stay, Pulse::Forward]
    );
}

#[test]
fn backward_and_threshold_edges() {
    assert_eq!(
        decode_samples(&vec![Some(100), Some(80), Some(79)]),
        vec![Pulse::Stay, Pulse::Stay, Pulse::Backward]
    );
    assert_eq!(decode_samples(&vec![Some(0), Some(20)]), vec![Pulse::Stay, Pulse::Stay]);
}

#[test]
fn leaving_proximity_clears_baseline() {
    let mut d = GestureDecoder::new();
    assert_eq!(d.feed(Some(0)), Pulse::Stay);
    assert_eq!(d.feed(None), Pulse::Stay);
    assert_eq!(d.baseline, None);
    assert_eq!(d.feed(Some(30)), Pulse::Stay);
    assert_eq!(d.feed(Some(10)), Pulse::Stay);
    assert_eq!(d.feed(Some(9)), Pulse::Backward);
}

#[test]
fn extreme_samples_do_not_overflow() {
    assert_eq!(
        decode_samples(&vec![Some(i16::MIN), Some(i16::MAX)]),
        vec![Pulse::Stay, Pulse::Forward]
    );
}
