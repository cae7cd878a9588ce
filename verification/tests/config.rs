use sentiric_rtp_core::codecs::CodecType;
use sentiric_rtp_core::config::{AudioProfile, CodecConfig};

fn names(profile: &AudioProfile) -> Vec<&'static str> {
    profile.codecs.iter().map(|c| c.name).collect()
}

#[test]
fn builtin_offer() {
    let profile = AudioProfile::default();
    assert_eq!(profile.ptime, 20);
    assert_eq!(names(&profile), vec!["G729", "PCMU", "PCMA", "telephone-event"]);
    let payload_types: Vec<u8> = profile.codecs.iter().map(|c| c.payload_type).collect();
    assert_eq!(payload_types, vec![18, 0, 8, 101]);
    for c in &profile.codecs {
        assert_eq!(c.rate, 8000);
        assert_eq!(c.payload_type, c.codec.to_u8());
    }
    assert_eq!(profile.codecs[0].fmtp, Some("annexb=no"));
    assert_eq!(profile.codecs[1].fmtp, None);
    assert_eq!(profile.codecs[2].fmtp, None);
    assert_eq!(profile.codecs[3].fmtp, Some("0-16"));
    assert_eq!(profile.preferred_audio_codec(), CodecType::G729);
}

#[test]
fn preferred_codec_moves_to_the_front() {
    let pcma = AudioProfile::with_preferred("PCMA");
    assert_eq!(names(&pcma), vec!["PCMA", "G729", "PCMU", "telephone-event"]);
    assert_eq!(pcma.preferred_audio_codec(), CodecType::PCMA);
    assert_eq!(pcma.ptime, 20);

    let pcmu = AudioProfile::with_preferred("PCMU");
    assert_eq!(names(&pcmu), vec!["PCMU", "G729", "PCMA", "telephone-event"]);
    assert_eq!(pcmu.preferred_audio_codec(), CodecType::PCMU);

    let g729 = AudioProfile::with_preferred("G729");
    assert_eq!(names(&g729), vec!["G729", "PCMU", "PCMA", "telephone-event"]);
}

#[test]
fn unknown_preference_leaves_the_offer_alone() {
    for name in ["", "OPUS", "pcma", "PCMA ", "G.729"] {
        let profile = AudioProfile::with_preferred(name);
        assert_eq!(names(&profile), vec!["G729", "PCMU", "PCMA", "telephone-event"]);
    }
}

#[test]
fn configured_preference_is_put_in_upper_case() {
    assert_eq!(AudioProfile::from_preference("pcma").codecs[0].codec, CodecType::PCMA);
    assert_eq!(AudioProfile::from_preference("Pcmu").codecs[0].codec, CodecType::PCMU);
    assert_eq!(AudioProfile::from_preference("g729").codecs[0].codec, CodecType::G729);
    // No upper-case text names the telephone-event slot.
    let events = AudioProfile::from_preference("telephone-event");
    assert_eq!(names(&events), vec!["G729", "PCMU", "PCMA", "telephone-event"]);
    assert_eq!(AudioProfile::from_preference("opus").codecs[0].codec, CodecType::G729);
}

#[test]
fn telephone_event_can_be_first_but_is_never_the_audio_codec() {
    let profile = AudioProfile::with_preferred("telephone-event");
    assert_eq!(names(&profile), vec!["telephone-event", "G729", "PCMU", "PCMA"]);
    assert_eq!(profile.preferred_audio_codec(), CodecType::G729);
}

#[test]
fn audio_codec_falls_back_to_mu_law() {
    let empty = AudioProfile { codecs: vec![], ptime: 20 };
    assert_eq!(empty.preferred_audio_codec(), CodecType::PCMU);
    let events_only = AudioProfile {
        codecs: vec![CodecConfig {
            codec: CodecType::TelephoneEvent,
            payload_type: 101,
            name: "telephone-event",
            rate: 8000,
            fmtp: None,
        }],
        ptime: 20,
    };
    assert_eq!(events_only.preferred_audio_codec(), CodecType::PCMU);
}

#[test]
fn lookup_by_payload_type() {
    let profile = AudioProfile::with_preferred("PCMA");
    let g729 = profile.get_by_payload(18).unwrap();
    assert_eq!(g729.codec, CodecType::G729);
    assert_eq!(g729.name, "G729");
    assert_eq!(g729.fmtp, Some("annexb=no"));
    assert_eq!(profile.get_by_payload(8).unwrap().codec, CodecType::PCMA);
    assert_eq!(profile.get_by_payload(101).unwrap().name, "telephone-event");
    assert!(profile.get_by_payload(9).is_none());
}

#[test]
fn lookup_gives_the_first_of_two() {
    let entry = |name: &'static str| CodecConfig {
        codec: CodecType::PCMU,
        payload_type: 96,
        name,
        rate: 8000,
        fmtp: None,
    };
    let profile = AudioProfile { codecs: vec![entry("first"), entry("second")], ptime: 20 };
    assert_eq!(profile.get_by_payload(96).unwrap().name, "first");
}
