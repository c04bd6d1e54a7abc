use vad_wasm::decision::Votes;
use vad_wasm::detector::{BinFrequency, VAD};
use vad_wasm::framing::ConfigError;

const SILENCE: Votes = Votes { energy: true, frequency: false, flatness: false };
const VOICE: Votes = Votes { energy: false, frequency: true, flatness: true };

fn detector(sample_rate: u32) -> VAD {
    match VAD::new(sample_rate) {
        Ok(vad) => vad,
        Err(e) => panic!("{} Hz refused: {:?}", sample_rate, e),
    }
}

#[test]
fn rate_under_two_hundred_hertz_is_refused() {
    assert_eq!(VAD::new(199).err(), Some(ConfigError::FrameTooShort));
    assert_eq!(VAD::new(0).err(), Some(ConfigError::FrameTooShort));
    assert_eq!(VAD::new(100).err(), Some(ConfigError::FrameTooShort));
    assert!(VAD::new(200).is_ok());
    assert!(VAD::new(u32::MAX).is_ok());
}

#[test]
fn sixteen_kilohertz_gives_frames_of_160_samples() {
    let vad = detector(16000);
    assert_eq!(vad.sample_rate(), 16000);
    assert_eq!(vad.frame_size(), 160);
    assert_eq!(vad.num_frames(16000), 100);
    assert_eq!(vad.spectrum_bins(), 80);
}

#[test]
fn output_length_is_the_number_of_whole_frames() {
    let vad = detector(8000);
    assert_eq!(vad.frame_size(), 80);
    for len in [0usize, 79, 80, 81, 799, 800, 8000, 8079] {
        let n = vad.num_frames(len);
        assert_eq!(n, len / 80);
        let out = vad.detect_voice(len, &vec![SILENCE; n]);
        assert_eq!(out.map(|bytes| bytes.len()), Some(len / 80));
    }
}

#[test]
fn frames_are_cut_at_the_frame_size() {
    let vad = detector(300);
    let samples: Vec<u8> = (0..7).collect();
    assert_eq!(vad.frame_size(), 3);
    assert_eq!(vad.frame(&samples, 0), Some(&samples[0..3]));
    assert_eq!(vad.frame(&samples, 1), Some(&samples[3..6]));
    assert_eq!(vad.frame(&samples, 2), None);
}

#[test]
fn bin_frequency_is_bin_times_rate_over_frame_size() {
    let vad = detector(16000);
    assert_eq!(vad.bin_frequency(0), Some(BinFrequency { numerator: 0, denominator: 160 }));
    assert_eq!(vad.bin_frequency(3), Some(BinFrequency { numerator: 48000, denominator: 160 }));
    assert_eq!(vad.bin_frequency(79), Some(BinFrequency { numerator: 1264000, denominator: 160 }));
    assert_eq!(vad.bin_frequency(80), None);
    let odd = detector(44100);
    assert_eq!(odd.bin_frequency(7), Some(BinFrequency { numerator: 308700, denominator: 441 }));
}

#[test]
fn bin_frequency_fits_at_the_highest_rate() {
    let vad = detector(u32::MAX);
    assert_eq!(vad.spectrum_bins(), 21474836);
    assert_eq!(
        vad.bin_frequency(21474835),
        Some(BinFrequency { numerator: 21474835u64 * 4294967295u64, denominator: 42949672 })
    );
}

#[test]
fn engine_holds_one_slot_per_whole_frame() {
    let vad = detector(16000);
    let mut engine = vad.engine(500);
    let mut steps = 0;
    while engine.next_frame().is_some() {
        let (next, _) = engine.step(SILENCE);
        engine = next;
        steps += 1;
    }
    assert_eq!(steps, 3);
    assert_eq!(engine.finish(), vec![0u8; 3]);
}

#[test]
fn silent_second_gives_a_hundred_zero_bytes() {
    let vad = detector(16000);
    let out = vad.detect_voice(16000, &vec![SILENCE; 100]);
    assert_eq!(out, Some(vec![0u8; 100]));
}

#[test]
fn buffer_shorter_than_a_frame_gives_an_empty_result() {
    let vad = detector(16000);
    assert_eq!(vad.detect_voice(159, &[]), Some(Vec::new()));
    assert_eq!(vad.detect_voice(0, &[]), Some(Vec::new()));
}

#[test]
fn votes_must_match_the_frames() {
    let vad = detector(16000);
    assert_eq!(vad.detect_voice(16000, &vec![SILENCE; 99]), None);
    assert_eq!(vad.detect_voice(16000, &vec![SILENCE; 101]), None);
    assert_eq!(vad.detect_voice(159, &[SILENCE]), None);
}

#[test]
fn same_votes_give_the_same_bytes() {
    let vad = detector(16000);
    let votes: Vec<Votes> = (0..100).map(|i| if i % 7 < 4 { VOICE } else { SILENCE }).collect();
    let first = vad.detect_voice(16000, &votes);
    let second = vad.detect_voice(16000, &votes);
    assert!(first.is_some());
    assert_eq!(first, second);
}

#[test]
fn trailing_samples_do_not_change_the_result() {
    let vad = detector(16000);
    let mut votes = vec![SILENCE; 40];
    votes.extend(vec![VOICE; 25]);
    votes.extend(vec![SILENCE; 35]);
    let exact = vad.detect_voice(16000, &votes);
    let with_tail = vad.detect_voice(16159, &votes);
    let mut expected = vec![0u8; 40];
    expected.extend(vec![1u8; 25]);
    expected.extend(vec![0u8; 35]);
    assert_eq!(exact, Some(expected));
    assert_eq!(exact, with_tail);
}

#[test]
fn gaps_are_filled_and_bursts_removed() {
    let vad = detector(16000);
    let mut votes = vec![SILENCE; 20];
    votes.extend(vec![VOICE; 8]);
    votes.extend(vec![SILENCE; 9]);
    votes.extend(vec![VOICE; 8]);
    votes.extend(vec![SILENCE; 20]);
    votes.extend(vec![VOICE; 4]);
    votes.extend(vec![SILENCE; 11]);
    let mut expected = vec![0u8; 20];
    expected.extend(vec![1u8; 25]);
    expected.extend(vec![0u8; 35]);
    assert_eq!(vad.detect_voice(80 * 160, &votes), Some(expected));
}
