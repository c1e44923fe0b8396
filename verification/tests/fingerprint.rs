use omegawhisper::fingerprint::{generate_device_fingerprint, identity_bytes, DeviceSources};

fn sources() -> DeviceSources {
    DeviceSources {
        machine_id: None,
        dbus_machine_id: None,
        hostname: None,
        hostname_file: None,
        user: None,
        cpuinfo: None,
    }
}

#[test]
fn nothing_known_is_the_digest_of_nothing() {
    assert_eq!(
        generate_device_fingerprint(&sources()),
        "e3b0c44298fc1c149afbf4c8996fb92427ae41e4649b934ca495991b7852b855"
    );
}

#[test]
fn the_machine_identifier_is_hashed() {
    let mut s = sources();
    s.machine_id = Some(" abc\n".to_string());
    assert_eq!(
        generate_device_fingerprint(&s),
        "ba7816bf8f01cfea414140de5dae2223b00361a396177a9cb410ff61f20015ad"
    );
    s.dbus_machine_id = Some("other".to_string());
    s.hostname = Some("host".to_string());
    s.user = Some("me".to_string());
    assert_eq!(identity_bytes(&s), b"abc".to_vec());
}

#[test]
fn other_sources_step_in() {
    let mut s = sources();
    s.dbus_machine_id = Some("dbus \n".to_string());
    assert_eq!(identity_bytes(&s), b"dbus".to_vec());
    s.dbus_machine_id = None;
    s.hostname_file = Some(" box\n".to_string());
    s.user = Some("me ".to_string());
    assert_eq!(identity_bytes(&s), b"boxme ".to_vec());
    s.hostname = Some(" host ".to_string());
    assert_eq!(identity_bytes(&s), b" host me ".to_vec());
}

#[test]
fn the_first_processor_is_added() {
    let mut s = sources();
    s.machine_id = Some("id".to_string());
    s.cpuinfo = Some("processor: 0\nmodel name\t: X\r\nmodel name\t: Y\n".to_string());
    assert_eq!(identity_bytes(&s), b"idmodel name\t: X".to_vec());
}
