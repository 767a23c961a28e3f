use novus_voice::cli::{say_options, wants_speech, CliError};
use novus_voice::speed::{clamp_speed, FASTEST, SLOWEST};

fn args(list: &[&str]) -> Vec<String> {
    list.iter().map(|a| a.to_string()).collect()
}

#[test]
fn all_options_are_read() {
    let o = say_options(&args(&[
        "novus-voice", "--say", "Hi.", "--pack", "/p", "--voice", "af_heart", "--out", "o.wav",
        "--speed", "1.5",
    ]))
    .unwrap();
    assert_eq!(o.text, "Hi.");
    assert_eq!(o.pack_dir, "/p");
    assert_eq!(o.voice, "af_heart");
    assert_eq!(o.out_path, "o.wav");
    assert_eq!(o.speed, Some("1.5".to_string()));
}

#[test]
fn output_and_speed_may_be_left_out() {
    let o = say_options(&args(&["--voice", "v", "--pack", "/p", "--say", "Hi."])).unwrap();
    assert_eq!(o.out_path, "novus-voice-test.wav");
    assert_eq!(o.speed, None);
}

#[test]
fn the_first_occurrence_of_a_flag_counts() {
    let o = say_options(&args(&[
        "--say", "a", "--say", "b", "--pack", "--voice", "--voice", "v",
    ]))
    .unwrap();
    assert_eq!(o.text, "a");
    assert_eq!(o.pack_dir, "--voice");
    assert_eq!(o.voice, "--voice");
}

#[test]
fn missing_options_are_named_in_order() {
    let missing = |list: &[&str]| say_options(&args(list)).unwrap_err();
    assert_eq!(missing(&["--say"]), CliError::NoText);
    assert_eq!(missing(&["--say", "a"]), CliError::NoPack);
    assert_eq!(missing(&["--say", "a", "--pack", "p"]), CliError::NoVoice);
    assert_eq!(CliError::NoText.message(), "--say TEXT required");
    assert_eq!(CliError::NoPack.message(), "--pack DIR required");
    assert_eq!(CliError::NoVoice.message(), "--voice ID required");
}

#[test]
fn speech_is_asked_for_by_its_flag() {
    assert!(wants_speech(&args(&["novus-voice", "--say"])));
    assert!(!wants_speech(&args(&["novus-voice", "--pack", "p"])));
    assert!(!wants_speech(&args(&[])));
}

#[test]
fn speeds_are_clamped_as_floats_are() {
    assert_eq!(f32::from_bits(SLOWEST), 0.5);
    assert_eq!(f32::from_bits(FASTEST), 3.0);
    for speed in [
        -1.0f32, -0.0, 0.0, 0.25, 0.49999997, 0.5, 0.50000006, 1.0, 2.9999998, 3.0, 3.0000002, 100.0,
        f32::INFINITY, f32::NEG_INFINITY, f32::MIN_POSITIVE, f32::MAX, f32::MIN, 1e-45,
    ] {
        assert_eq!(clamp_speed(speed.to_bits()), speed.clamp(0.5, 3.0).to_bits(), "{speed}");
    }
    assert_eq!(clamp_speed(f32::NAN.to_bits()), f32::NAN.to_bits());
}
