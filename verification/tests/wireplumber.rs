use omegawhisper::wireplumber::{find_builtin_microphone_id, list_audio_devices};

const STATUS: &str = "PipeWire 'pipewire-0' [1.0.5]
 └─ Clients:
        31. WirePlumber

Audio
 ├─ Devices:
 │      42. Built-in Audio                      [alsa]
 │     140. WH-1000XM4                          [bluez5]
 │
 ├─ Sinks:
 │  *   50. Speaker                             [vol: 0.40]
 │
 ├─ Sources:
 │  *   60. Meteor Lake Digital Microphone      [vol: 1.00]
 │      61. Meteor Lake Stereo Microphone       [vol: 1.00]
 │      62. USB Mic
 │
 ├─ Filters:
 │    - loopback-1
 │  *  146. bluez_input.AA:BB:CC                [Audio/Source]
 │     147. bluez_output.AA:BB:CC               [Audio/Sink]
 │
 └─ Streams:
        80. app

Video
 ├─ Sources:
 │  *   90. Camera Digital Microphone [vol: 1]
";

#[test]
fn the_microphones_are_listed() {
    let devices = list_audio_devices(STATUS);
    let got: Vec<(u32, &str, bool)> =
        devices.iter().map(|d| (d.id, d.name.as_str(), d.is_default)).collect();
    assert_eq!(
        got,
        vec![
            (60, "Built-in Microphone", true),
            (61, "Stereo Microphone", false),
            (62, "USB Mic", false),
            (146, "WH-1000XM4", true),
        ]
    );
}

#[test]
fn the_built_in_microphone_is_found() {
    assert_eq!(find_builtin_microphone_id(STATUS), Some(60));
    assert_eq!(find_builtin_microphone_id("Audio\n ├─ Sources:\n │   7. Mic\n"), None);
    assert_eq!(find_builtin_microphone_id(""), None);
    assert_eq!(
        find_builtin_microphone_id("Video\n ├─ Sources:\n │   7. Digital Microphone\n"),
        None
    );
}

#[test]
fn a_bluetooth_microphone_without_a_device_has_a_name_of_its_own() {
    let status = "Audio\n ├─ Filters:\n - 5. bluez_input.X [Audio/Source]\n";
    let devices = list_audio_devices(status);
    assert_eq!(devices.len(), 1);
    assert_eq!(devices[0].name, "Bluetooth Microphone");
    assert!(!devices[0].is_default);
}

#[test]
fn a_starred_bluetooth_microphone_is_the_default() {
    let status = "Audio\n ├─ Filters:\n │ * 5. bluez_input.X [Audio/Source]\n";
    assert!(list_audio_devices(status)[0].is_default);
}

#[test]
fn lines_that_are_no_entries_are_passed_over() {
    let status = "Audio\n ├─ Sources:\n │\n │ x. Mic [vol]\n │ 4294967296. Big\n │ 3.Tight\n │ 8.  [vol]\n │ +9. Plus\n";
    let devices = list_audio_devices(status);
    assert_eq!(devices.iter().map(|d| d.id).collect::<Vec<_>>(), vec![9]);
    assert_eq!(devices[0].name, "Plus");
}

#[test]
fn the_built_in_microphone_is_the_first_default_under_sources() {
    let reports = [
        STATUS,
        "Audio\n ├─ Filters:\n │ * 5. bluez_input.X [Audio/Source]\n ├─ Sources:\n │ 6. Mic\n",
        "Audio\n ├─ Sources:\n │ 6. Mic\n │ 7. Digital Microphone [v]\n │ * 8. Digital Microphone\n",
        "Audio\n ├─ Sources:\n │ 7. Digital Microphone\n * │ 5. Digital Microphone\n 9. Mic [Digital Microphone]\n",
    ];
    for (report, want) in reports.iter().zip([Some(60), None, Some(7), Some(7)]) {
        let first = list_audio_devices(report)
            .into_iter()
            .find(|d| d.is_default && d.name == "Built-in Microphone")
            .map(|d| d.id);
        assert_eq!(first, want);
        assert_eq!(find_builtin_microphone_id(report), want);
    }
}
