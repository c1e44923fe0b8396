use omegawhisper::server::{
    connect_failure, connect_to_deepgram, connect_to_hyperwhisper_server, endpoint_at,
    get_hyperwhisper_api_base, listen_url, trial_failure, trial_url, ConnectStep, Service,
    TrialError, TrialErrorDetails, TrialFailure, TrialRequest, UrlParts,
};

#[test]
fn server_addresses_pick_the_right_protocol() {
    // (address, secure, expected, why)
    let cases: &[(&str, bool, &str, &str)] = &[
        ("hyperwhisper.dev", true, "https://hyperwhisper.dev", "the normal case"),
        ("localhost:8080", false, "http://localhost:8080", "a local test server"),
    ];
    for &(address, secure, want, what) in cases {
        assert_eq!(get_hyperwhisper_api_base(address, secure), want, "{what}");
    }
}

#[test]
fn trial_requests_have_their_addresses() {
    let cases = [
        (TrialRequest::Provision, "https://h.dev/api/v1/trial/provision"),
        (TrialRequest::Status, "https://h.dev/api/v1/trial/status"),
        (TrialRequest::Usage, "https://h.dev/api/v1/trial/usage"),
    ];
    for (request, want) in cases {
        assert_eq!(trial_url(request, "h.dev", true), want);
    }
}

#[test]
fn failed_trial_requests_say_why() {
    let body = TrialError {
        error: "Quota exceeded".to_string(),
        details: Some(TrialErrorDetails { upgrade_url: None }),
    };
    let refused = TrialFailure::Refused(429, Some(body));
    assert_eq!(trial_failure(TrialRequest::Usage, &refused), "429: Quota exceeded");
    let bare = TrialFailure::Refused(500, None);
    assert_eq!(trial_failure(TrialRequest::Status, &bare), "500: Request failed");
    let away = TrialFailure::Unreachable("dns".to_string());
    assert_eq!(
        trial_failure(TrialRequest::Provision, &away),
        "Failed to provision trial key: dns"
    );
    assert_eq!(trial_failure(TrialRequest::Status, &away), "Failed to get trial status: dns");
    assert_eq!(trial_failure(TrialRequest::Usage, &away), "Failed to get trial usage: dns");
    let garbled = TrialFailure::Unreadable("eof".to_string());
    assert_eq!(
        trial_failure(TrialRequest::Provision, &garbled),
        "Failed to parse trial response: eof"
    );
    assert_eq!(trial_failure(TrialRequest::Status, &garbled), "Failed to parse trial status: eof");
    assert_eq!(trial_failure(TrialRequest::Usage, &garbled), "Failed to parse trial usage: eof");
}

#[test]
fn deepgram_is_reached_over_tls() {
    let e = connect_to_deepgram("k", 48_000).ok().unwrap();
    assert_eq!(
        e.url,
        "wss://api.deepgram.com/v1/listen?model=nova-3&smart_format=true&interim_results=true&encoding=linear16&sample_rate=48000&channels=1"
    );
    assert_eq!(e.host, "api.deepgram.com");
    assert_eq!(e.address, "api.deepgram.com:443");
    assert!(e.tls);
    assert_eq!(e.headers[0], ("Authorization".to_string(), "Token k".to_string()));
    assert_eq!(e.headers[1], ("Host".to_string(), "api.deepgram.com".to_string()));
    assert_eq!(e.headers.len(), 5);
    assert_eq!(e.headers[4], ("Sec-WebSocket-Version".to_string(), "13".to_string()));
}

#[test]
fn a_hyperwhisper_server_is_reached_as_the_settings_say() {
    let e = connect_to_hyperwhisper_server("k", 16_000, "Hyperwhisper.dev", true).ok().unwrap();
    assert!(e.tls);
    assert!(e.url.starts_with("wss://Hyperwhisper.dev/api/v1/deepgram/listen?model=nova-3&"));
    assert_eq!(e.host, "hyperwhisper.dev");
    assert_eq!(e.address, "hyperwhisper.dev:443");
    assert_eq!(e.headers[0], ("X-API-Key".to_string(), "k".to_string()));
    assert_eq!(e.headers[1], ("Host".to_string(), "hyperwhisper.dev".to_string()));

    let e = connect_to_hyperwhisper_server("k", 16_000, "localhost:8080", false).ok().unwrap();
    assert!(!e.tls);
    assert!(e.url.starts_with("ws://localhost:8080/"));
    assert_eq!(e.address, "localhost:8080");
    assert_eq!(e.headers[1], ("Host".to_string(), "localhost:8080".to_string()));

    let e = connect_to_hyperwhisper_server("k", 16_000, "example.org", false).ok().unwrap();
    assert_eq!(e.address, "example.org:80");
}

#[test]
fn an_address_that_cannot_be_read_is_refused() {
    let e = connect_to_hyperwhisper_server("k", 16_000, "a b", true).err().unwrap();
    assert!(e.starts_with("Invalid URL: "), "{e}");
    assert!(e.len() > "Invalid URL: ".len());
}

#[test]
fn what_was_read_of_an_address_decides() {
    let parts = Ok(UrlParts { host: None, port: None });
    let e = endpoint_at(Service::Deepgram, "k", "x".to_string(), parts).err().unwrap();
    assert_eq!(e, "No host in URL");
    let e = endpoint_at(Service::Deepgram, "k", "x".to_string(), Err("bad".to_string()));
    assert_eq!(e.err().unwrap(), "Invalid URL: bad");
    let parts = Ok(UrlParts { host: Some("h".to_string()), port: Some(9) });
    let e = endpoint_at(Service::Hyperwhisper { https: false }, "k", "u".to_string(), parts);
    let e = e.ok().unwrap();
    assert_eq!(e.url, "u");
    assert_eq!(e.address, "h:9");
}

#[test]
fn the_sample_rate_is_part_of_the_address() {
    let url = listen_url(Service::Hyperwhisper { https: true }, "s", 4_294_967_295);
    assert!(url.ends_with("&sample_rate=4294967295&channels=1"));
    let url = listen_url(Service::Deepgram, "ignored", 0);
    assert!(url.ends_with("&sample_rate=0&channels=1"));
    assert!(!url.contains("ignored"));
}

#[test]
fn a_failed_connection_says_where_it_failed() {
    let own = Service::Hyperwhisper { https: true };
    assert_eq!(
        connect_failure(own, ConnectStep::Reach, "x"),
        "Failed to connect to Hyperwhisper server: x"
    );
    assert_eq!(connect_failure(Service::Deepgram, ConnectStep::Reach, "x"), "Failed to connect: x");
    assert_eq!(connect_failure(own, ConnectStep::Tls, "x"), "Failed to create TLS connector: x");
    assert_eq!(connect_failure(own, ConnectStep::TlsHandshake, "x"), "TLS handshake failed: x");
    assert_eq!(connect_failure(own, ConnectStep::Request, "x"), "Failed to build request: x");
    assert_eq!(connect_failure(own, ConnectStep::Handshake, "x"), "WebSocket handshake failed: x");
}
