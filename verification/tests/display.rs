//! Display names derived from entity snapshots.

use pavucontrolrs::entries::CardEntry;
use pavucontrolrs::entries::ProfileInfo;
use pavucontrolrs::entries::SinkInputEntry;
use pavucontrolrs::entries::SourceOutputEntry;
use pavucontrolrs::entries::Volumes;

fn bare_stream(name: &str) -> SinkInputEntry {
    SinkInputEntry {
        index: 1,
        name: String::from(name),
        sink_index: 0,
        volume: Volumes::new(vec![65536]),
        mute: false,
        corked: false,
        has_volume: true,
        volume_writable: true,
        app_name: None,
        binary_name: None,
    }
}

#[test]
fn stream_name_stands_alone_without_properties() {
    assert_eq!(bare_stream("Playback").display_name(), "Playback");
}

#[test]
fn stream_name_carries_the_application() {
    let mut e = bare_stream("Playback");
    e.app_name = Some(String::from("Music Player"));
    assert_eq!(e.display_name(), "Playback [Music Player]");
}

#[test]
fn firefox_streams_are_labelled_by_binary() {
    let mut e = bare_stream("AudioStream");
    e.app_name = Some(String::from("Nightly"));
    e.binary_name = Some(String::from("firefox"));
    assert_eq!(e.display_name(), "AudioStream [firefox]");
}

#[test]
fn capture_name_carries_the_application() {
    let e = SourceOutputEntry {
        index: 1,
        name: String::from("Record"),
        source_index: 0,
        volume: Volumes::new(vec![65536]),
        mute: false,
        corked: false,
        has_volume: true,
        volume_writable: true,
        app_name: Some(String::from("Recorder")),
    };
    assert_eq!(e.display_name(), "Record [Recorder]");
}

#[test]
fn card_prefers_the_device_description() {
    let mut c = CardEntry {
        index: 1,
        name: String::from("alsa_card.pci"),
        device_description: Some(String::from("Built-in Audio")),
        ports: Vec::new(),
        profiles: vec![ProfileInfo {
            name: String::from("analog-stereo"),
            description: String::from("Analog Stereo"),
            n_sinks: 1,
            n_sources: 1,
            priority: 1,
            available: true,
        }],
        active_profile_index: Some(0),
        selected_profile_index: Some(0),
    };
    assert_eq!(c.display_name(), "Built-in Audio");
    c.device_description = None;
    assert_eq!(c.display_name(), "alsa_card.pci");
    assert_eq!(c.profiles[0].display_name(), "Analog Stereo");
}
