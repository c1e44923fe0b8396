//! The servers that transcribe speech: their addresses, what is sent to open a
//! connection, and what their trial service answers.

use crate::text::{a_number_reads_back, begins_with, decimal, decimal_string, owned, parsed_u32};
use vstd::prelude::*;
use vstd::string::StringExecFns;

verus! {

/// What the server answers to a request for a trial key. `N` is a number of seconds.
#[derive(Clone, Debug)]
pub struct TrialProvisionResponse<N> {
    pub key: Option<String>,
    pub key_prefix: String,
    pub remaining_duration_seconds: N,
    pub remaining_sessions: i64,
    pub max_session_duration_seconds: N,
    pub expires_at: String,
    pub quota_exceeded: bool,
    pub expired: bool,
}

/// What is left of a trial. `N` is a number of seconds.
#[derive(Clone, Debug)]
pub struct TrialStatusResponse<N> {
    pub active: bool,
    pub remaining_duration_seconds: N,
    pub remaining_sessions: i64,
    pub expires_at: String,
    pub expired: bool,
    pub quota_exceeded: bool,
    pub upgrade_url: Option<String>,
}

/// What a trial has used. `N` is a number of seconds.
#[derive(Clone, Debug)]
pub struct TrialUsageResponse<N> {
    pub total_duration_seconds: N,
    pub total_sessions: i64,
    pub remaining_duration_seconds: N,
    pub remaining_sessions: i64,
    pub max_duration_seconds: N,
    pub max_sessions: i64,
    pub max_session_duration_seconds: N,
    pub quota_exceeded: bool,
}

/// Why the trial service refused a request.
#[derive(Clone, Debug)]
pub struct TrialError {
    pub error: String,
    pub details: Option<TrialErrorDetails>,
}

/// What can be done about a refusal.
#[derive(Clone, Debug)]
pub struct TrialErrorDetails {
    pub upgrade_url: Option<String>,
}

/// What changing the server settings led to.
pub struct ServerSettingsResponse<N> {
    pub provisioned_key: Option<String>,
    pub trial_info: Option<TrialProvisionResponse<N>>,
    pub error: Option<String>,
}

/// The address of the server's programming interface.
pub open spec fn api_base(server_url: Seq<char>, use_https: bool) -> Seq<char> {
    (if use_https {
        "https"@
    } else {
        "http"@
    }) + "://"@ + server_url
}

/// The address of the server's programming interface.
pub fn get_hyperwhisper_api_base(server_url: &str, use_https: bool) -> (r: String)
    ensures
        r@ == api_base(server_url@, use_https),
{
    let mut r = if use_https {
        owned("https")
    } else {
        owned("http")
    };
    r.append("://");
    r.append(server_url);
    r
}

/// What is asked of the trial service.
#[derive(Clone, Copy, PartialEq, Eq, Structural, Debug)]
pub enum TrialRequest {
    Provision,
    Status,
    Usage,
}

/// The address of a request to the trial service.
pub open spec fn trial_address(
    request: TrialRequest,
    server_url: Seq<char>,
    use_https: bool,
) -> Seq<char> {
    api_base(server_url, use_https) + match request {
        TrialRequest::Provision => "/api/v1/trial/provision"@,
        TrialRequest::Status => "/api/v1/trial/status"@,
        TrialRequest::Usage => "/api/v1/trial/usage"@,
    }
}

/// The address of a request to the trial service.
pub fn trial_url(request: TrialRequest, server_url: &str, use_https: bool) -> (r: String)
    ensures
        r@ == trial_address(request, server_url@, use_https),
{
    let mut r = get_hyperwhisper_api_base(server_url, use_https);
    match request {
        TrialRequest::Provision => r.append("/api/v1/trial/provision"),
        TrialRequest::Status => r.append("/api/v1/trial/status"),
        TrialRequest::Usage => r.append("/api/v1/trial/usage"),
    }
    r
}

/// How a request to the trial service failed.
pub enum TrialFailure {
    /// The server answered with an error code, and with a reason where one could be read.
    Refused(u16, Option<TrialError>),
    /// The server could not be reached.
    Unreachable(String),
    /// The answer could not be read.
    Unreadable(String),
}

/// The message for a failed request to the trial service.
pub open spec fn failure_text(request: TrialRequest, failure: TrialFailure) -> Seq<char> {
    match failure {
        TrialFailure::Refused(code, Some(body)) => decimal(code as nat) + ": "@ + body.error@,
        TrialFailure::Refused(code, None) => decimal(code as nat) + ": Request failed"@,
        TrialFailure::Unreachable(reason) => (match request {
            TrialRequest::Provision => "Failed to provision trial key: "@,
            TrialRequest::Status => "Failed to get trial status: "@,
            TrialRequest::Usage => "Failed to get trial usage: "@,
        }) + reason@,
        TrialFailure::Unreadable(reason) => (match request {
            TrialRequest::Provision => "Failed to parse trial response: "@,
            TrialRequest::Status => "Failed to parse trial status: "@,
            TrialRequest::Usage => "Failed to parse trial usage: "@,
        }) + reason@,
    }
}

/// The message for a failed request to the trial service.
pub fn trial_failure(request: TrialRequest, failure: &TrialFailure) -> (r: String)
    ensures
        r@ == failure_text(request, *failure),
{
    match failure {
        TrialFailure::Refused(code, body) => {
            let mut r = decimal_string(*code as u64);
            match body {
                Some(body) => {
                    r.append(": ");
                    r.append(body.error.as_str());
                },
                None => r.append(": Request failed"),
            }
            r
        },
        TrialFailure::Unreachable(reason) => {
            let mut r = match request {
                TrialRequest::Provision => owned("Failed to provision trial key: "),
                TrialRequest::Status => owned("Failed to get trial status: "),
                TrialRequest::Usage => owned("Failed to get trial usage: "),
            };
            r.append(reason.as_str());
            r
        },
        TrialFailure::Unreadable(reason) => {
            let mut r = match request {
                TrialRequest::Provision => owned("Failed to parse trial response: "),
                TrialRequest::Status => owned("Failed to parse trial status: "),
                TrialRequest::Usage => owned("Failed to parse trial usage: "),
            };
            r.append(reason.as_str());
            r
        },
    }
}

/// A service that transcribes a stream of speech.
#[derive(Clone, Copy, PartialEq, Eq, Structural, Debug)]
pub enum Service {
    Deepgram,
    Hyperwhisper { https: bool },
}

/// What is asked of a service about the sound that follows, up to its sample rate.
pub open spec fn listen_query() -> Seq<char> {
    "?model=nova-3&smart_format=true&interim_results=true&encoding=linear16&sample_rate="@
}

/// The address at which a service listens.
pub open spec fn listen_address(
    service: Service,
    server_url: Seq<char>,
    sample_rate: u32,
) -> Seq<char> {
    (match service {
        Service::Deepgram => "wss://api.deepgram.com/v1/listen"@,
        Service::Hyperwhisper { https } => (if https {
            "wss"@
        } else {
            "ws"@
        }) + "://"@ + server_url + "/api/v1/deepgram/listen"@,
    }) + listen_query() + decimal(sample_rate as nat) + "&channels=1"@
}

/// The address at which a service listens. Deepgram's own address needs no server.
pub fn listen_url(service: Service, server_url: &str, sample_rate: u32) -> (r: String)
    ensures
        r@ == listen_address(service, server_url@, sample_rate),
{
    let mut r = match service {
        Service::Deepgram => owned("wss://api.deepgram.com/v1/listen"),
        Service::Hyperwhisper { https } => {
            let mut r = if https {
                owned("wss")
            } else {
                owned("ws")
            };
            r.append("://");
            r.append(server_url);
            r.append("/api/v1/deepgram/listen");
            r
        },
    };
    r.append("?model=nova-3&smart_format=true&interim_results=true&encoding=linear16&sample_rate=");
    r.append(decimal_string(sample_rate as u64).as_str());
    r.append("&channels=1");
    r
}

/// The parts of an address that a connection needs.
pub struct UrlParts {
    pub host: Option<String>,
    pub port: Option<u16>,
}

/// What an address is taken apart into: its host and its port, each where it names one,
/// or the reason why it is not an address.
pub uninterp spec fn url_parts(text: Seq<char>) -> Result<
    (Option<Seq<char>>, Option<u16>),
    Seq<char>,
>;

/// The parts, or the reason, as sequences of characters.
pub open spec fn parts_view(parts: Result<UrlParts, String>) -> Result<
    (Option<Seq<char>>, Option<u16>),
    Seq<char>,
> {
    match parts {
        Ok(UrlParts { host: Some(host), port }) => Ok((Some(host@), port)),
        Ok(UrlParts { host: None, port }) => Ok((None, port)),
        Err(reason) => Err(reason@),
    }
}

/// `url::Url::parse`, with `host_str` and `port` of the address it reads and the text of
/// the error it gives. All depend on the text alone; what they are, is not stated. The
/// port is missing where the address names none or names the usual one.
#[verifier::external_body]
fn parse_url(text: &str) -> (r: Result<UrlParts, String>)
    ensures
        parts_view(r) == url_parts(text@),
{
    match url::Url::parse(text) {
        Ok(u) => Ok(UrlParts { host: u.host_str().map(|h| h.to_string()), port: u.port() }),
        Err(e) => Err(e.to_string()),
    }
}

/// What is needed to open a connection to a service.
pub struct Endpoint {
    pub url: String,
    pub host: String,
    /// The host and the port to connect to.
    pub address: String,
    pub tls: bool,
    /// The headers of the request, but for the key of the handshake.
    pub headers: Vec<(String, String)>,
}

/// What an `Endpoint` says, as sequences of characters.
#[verifier::ext_equal]
pub struct EndpointView {
    pub url: Seq<char>,
    pub host: Seq<char>,
    pub address: Seq<char>,
    pub tls: bool,
    pub headers: Seq<(Seq<char>, Seq<char>)>,
}

/// The views of a list of headers.
pub open spec fn header_views(headers: Seq<(String, String)>) -> Seq<(Seq<char>, Seq<char>)> {
    headers.map_values(|h: (String, String)| (h.0@, h.1@))
}

impl View for Endpoint {
    type V = EndpointView;

    open spec fn view(&self) -> EndpointView {
        EndpointView {
            url: self.url@,
            host: self.host@,
            address: self.address@,
            tls: self.tls,
            headers: header_views(self.headers@),
        }
    }
}

/// Whether a service is reached over TLS.
pub open spec fn uses_tls(service: Service) -> bool {
    match service {
        Service::Deepgram => true,
        Service::Hyperwhisper { https } => https,
    }
}

/// The host and the port to connect to. Without a port the usual one is taken.
pub open spec fn host_and_port(service: Service, host: Seq<char>, port: Option<u16>) -> Seq<char> {
    let number: u16 = match port {
        Some(p) => p,
        None => if uses_tls(service) {
            443
        } else {
            80
        },
    };
    host + ":"@ + decimal(number as nat)
}

/// The header that carries the key.
pub open spec fn key_header(service: Service, api_key: Seq<char>) -> (Seq<char>, Seq<char>) {
    match service {
        Service::Deepgram => ("Authorization"@, "Token "@ + api_key),
        Service::Hyperwhisper { .. } => ("X-API-Key"@, api_key),
    }
}

/// What is needed to open a connection to `host`.
pub open spec fn endpoint_of(
    service: Service,
    api_key: Seq<char>,
    url: Seq<char>,
    host: Seq<char>,
    port: Option<u16>,
) -> EndpointView {
    EndpointView {
        url,
        host,
        address: host_and_port(service, host, port),
        tls: uses_tls(service),
        headers: seq![
            key_header(service, api_key),
            (
                "Host"@,
                if uses_tls(service) {
                    host
                } else {
                    host_and_port(service, host, port)
                },
            ),
            ("Connection"@, "Upgrade"@),
            ("Upgrade"@, "websocket"@),
            ("Sec-WebSocket-Version"@, "13"@),
        ],
    }
}

/// What comes of an address that was taken apart.
pub open spec fn endpoint_result(
    service: Service,
    api_key: Seq<char>,
    url: Seq<char>,
    parts: Result<(Option<Seq<char>>, Option<u16>), Seq<char>>,
) -> Result<EndpointView, Seq<char>> {
    match parts {
        Ok((Some(host), port)) => Ok(endpoint_of(service, api_key, url, host, port)),
        Ok((None, _)) => Err("No host in URL"@),
        Err(reason) => Err("Invalid URL: "@ + reason),
    }
}

/// The outcome of preparing a connection, as sequences of characters.
pub open spec fn endpoint_view(r: Result<Endpoint, String>) -> Result<EndpointView, Seq<char>> {
    match r {
        Ok(endpoint) => Ok(endpoint@),
        Err(message) => Err(message@),
    }
}

/// Prepares a connection to an address that was taken apart.
pub fn endpoint_at(
    service: Service,
    api_key: &str,
    url: String,
    parts: Result<UrlParts, String>,
) -> (r: Result<Endpoint, String>)
    ensures
        endpoint_view(r) == endpoint_result(service, api_key@, url@, parts_view(parts)),
{
    let parts = match parts {
        Ok(parts) => parts,
        Err(reason) => {
            let mut message = owned("Invalid URL: ");
            message.append(reason.as_str());
            return Err(message);
        },
    };
    let host = match parts.host {
        Some(host) => host,
        None => {
            return Err(owned("No host in URL"));
        },
    };
    let tls = match service {
        Service::Deepgram => true,
        Service::Hyperwhisper { https } => https,
    };
    let number: u16 = match parts.port {
        Some(p) => p,
        None => if tls {
            443
        } else {
            80
        },
    };
    let mut address = host.clone();
    address.append(":");
    address.append(decimal_string(number as u64).as_str());
    let mut headers: Vec<(String, String)> = Vec::new();
    match service {
        Service::Deepgram => {
            let mut token = owned("Token ");
            token.append(api_key);
            headers.push((owned("Authorization"), token));
        },
        Service::Hyperwhisper { .. } => headers.push((owned("X-API-Key"), owned(api_key))),
    }
    let named = if tls {
        host.clone()
    } else {
        address.clone()
    };
    headers.push((owned("Host"), named));
    headers.push((owned("Connection"), owned("Upgrade")));
    headers.push((owned("Upgrade"), owned("websocket")));
    headers.push((owned("Sec-WebSocket-Version"), owned("13")));
    let endpoint = Endpoint { url, host, address, tls, headers };
    assert(endpoint@ =~= endpoint_of(service, api_key@, endpoint.url@, host@, parts.port));
    Ok(endpoint)
}

/// Prepares a connection to a service.
pub fn endpoint(service: Service, api_key: &str, server_url: &str, sample_rate: u32) -> (r: Result<
    Endpoint,
    String,
>)
    ensures
        endpoint_view(r) == endpoint_result(
            service,
            api_key@,
            listen_address(service, server_url@, sample_rate),
            url_parts(listen_address(service, server_url@, sample_rate)),
        ),
{
    let url = listen_url(service, server_url, sample_rate);
    let parts = parse_url(url.as_str());
    endpoint_at(service, api_key, url, parts)
}

/// Prepares a connection to Deepgram.
pub fn connect_to_deepgram(api_key: &str, sample_rate: u32) -> (r: Result<Endpoint, String>)
    ensures
        endpoint_view(r) == endpoint_result(
            Service::Deepgram,
            api_key@,
            listen_address(Service::Deepgram, ""@, sample_rate),
            url_parts(listen_address(Service::Deepgram, ""@, sample_rate)),
        ),
{
    endpoint(Service::Deepgram, api_key, "", sample_rate)
}

/// Prepares a connection to a Hyperwhisper server.
pub fn connect_to_hyperwhisper_server(
    api_key: &str,
    sample_rate: u32,
    server_url: &str,
    use_https: bool,
) -> (r: Result<Endpoint, String>)
    ensures
        ({
            let service = Service::Hyperwhisper { https: use_https };
            let url = listen_address(service, server_url@, sample_rate);
            endpoint_view(r) == endpoint_result(service, api_key@, url, url_parts(url))
        }),
{
    endpoint(Service::Hyperwhisper { https: use_https }, api_key, server_url, sample_rate)
}

/// Where opening a connection failed.
#[derive(Clone, Copy, PartialEq, Eq, Structural, Debug)]
pub enum ConnectStep {
    /// TLS could not be set up.
    Tls,
    /// The host could not be reached.
    Reach,
    /// The host did not agree on TLS.
    TlsHandshake,
    /// The request could not be put together.
    Request,
    /// The host did not agree on the protocol.
    Handshake,
}

/// What is said where opening a connection failed, before the reason.
pub open spec fn connect_words(service: Service, step: ConnectStep) -> Seq<char> {
    match (step, service) {
        (ConnectStep::Tls, _) => "Failed to create TLS connector: "@,
        (ConnectStep::Reach, Service::Deepgram) => "Failed to connect: "@,
        (ConnectStep::Reach, _) => "Failed to connect to Hyperwhisper server: "@,
        (ConnectStep::TlsHandshake, _) => "TLS handshake failed: "@,
        (ConnectStep::Request, _) => "Failed to build request: "@,
        (ConnectStep::Handshake, _) => "WebSocket handshake failed: "@,
    }
}

/// The message for a connection that could not be opened.
pub fn connect_failure(service: Service, step: ConnectStep, reason: &str) -> (r: String)
    ensures
        r@ == connect_words(service, step) + reason@,
{
    let mut r = match step {
        ConnectStep::Tls => owned("Failed to create TLS connector: "),
        ConnectStep::Reach => match service {
            Service::Deepgram => owned("Failed to connect: "),
            Service::Hyperwhisper { .. } => owned("Failed to connect to Hyperwhisper server: "),
        },
        ConnectStep::TlsHandshake => owned("TLS handshake failed: "),
        ConnectStep::Request => owned("Failed to build request: "),
        ConnectStep::Handshake => owned("WebSocket handshake failed: "),
    };
    r.append(reason);
    r
}

/// A connection to a Hyperwhisper server goes over TLS exactly where that was asked for,
/// its address and that of the programming interface begin with the matching protocol,
/// and the key is sent unchanged in the header that the server expects.
pub proof fn the_protocol_follows_the_setting(
    https: bool,
    api_key: Seq<char>,
    server_url: Seq<char>,
    sample_rate: u32,
    host: Seq<char>,
    port: Option<u16>,
)
    ensures
        ({
            let service = Service::Hyperwhisper { https };
            let url = listen_address(service, server_url, sample_rate);
            let e = endpoint_of(service, api_key, url, host, port);
            &&& e.tls == https
            &&& begins_with(
                e.url,
                if https {
                    "wss://"@
                } else {
                    "ws://"@
                },
            )
            &&& e.headers[0] == ("X-API-Key"@, api_key)
        }),
        begins_with(
            api_base(server_url, https),
            if https {
                "https://"@
            } else {
                "http://"@
            },
        ),
{
    reveal_strlit("wss");
    reveal_strlit("ws");
    reveal_strlit("https");
    reveal_strlit("http");
    reveal_strlit("://");
    reveal_strlit("wss://");
    reveal_strlit("ws://");
    reveal_strlit("https://");
    reveal_strlit("http://");
    let url = listen_address(Service::Hyperwhisper { https }, server_url, sample_rate);
    if https {
        assert(url.subrange(0, 6) =~= "wss://"@);
        assert(api_base(server_url, https).subrange(0, 8) =~= "https://"@);
    } else {
        assert(url.subrange(0, 5) =~= "ws://"@);
        assert(api_base(server_url, https).subrange(0, 7) =~= "http://"@);
    }
}

/// The addresses of the trial service, whole: the server stands in them as it was named.
pub proof fn the_addresses_of_the_trial_service(server_url: Seq<char>)
    ensures
        api_base(server_url, true) == "https://"@ + server_url,
        api_base(server_url, false) == "http://"@ + server_url,
        trial_address(TrialRequest::Provision, server_url, true) == "https://"@ + server_url
            + "/api/v1/trial/provision"@,
        trial_address(TrialRequest::Status, server_url, true) == "https://"@ + server_url
            + "/api/v1/trial/status"@,
        trial_address(TrialRequest::Usage, server_url, true) == "https://"@ + server_url
            + "/api/v1/trial/usage"@,
        trial_address(TrialRequest::Provision, server_url, false) == "http://"@ + server_url
            + "/api/v1/trial/provision"@,
        trial_address(TrialRequest::Status, server_url, false) == "http://"@ + server_url
            + "/api/v1/trial/status"@,
        trial_address(TrialRequest::Usage, server_url, false) == "http://"@ + server_url
            + "/api/v1/trial/usage"@,
{
    reveal_strlit("https");
    reveal_strlit("http");
    reveal_strlit("://");
    reveal_strlit("https://");
    reveal_strlit("http://");
    assert(api_base(server_url, true) =~= "https://"@ + server_url);
    assert(api_base(server_url, false) =~= "http://"@ + server_url);
}

/// What is asked of a service about the sound that follows.
pub open spec fn is_asked_for(address: Seq<char>, place: Seq<char>, sample_rate: u32) -> bool {
    address == place
        + "?model=nova-3&smart_format=true&interim_results=true&encoding=linear16&sample_rate="@
        + decimal(sample_rate as nat) + "&channels=1"@
}

/// The addresses at which the services listen, whole. Deepgram listens at its own place,
/// whatever server is named; a Hyperwhisper server listens where it was named. Each is told
/// the rate of the sound, which can be read back from the address.
pub proof fn the_addresses_of_the_services(server_url: Seq<char>, sample_rate: u32, other: u32)
    ensures
        is_asked_for(
            listen_address(Service::Deepgram, server_url, sample_rate),
            "wss://api.deepgram.com/v1/listen"@,
            sample_rate,
        ),
        is_asked_for(
            listen_address(Service::Hyperwhisper { https: true }, server_url, sample_rate),
            "wss://"@ + server_url + "/api/v1/deepgram/listen"@,
            sample_rate,
        ),
        is_asked_for(
            listen_address(Service::Hyperwhisper { https: false }, server_url, sample_rate),
            "ws://"@ + server_url + "/api/v1/deepgram/listen"@,
            sample_rate,
        ),
        listen_address(Service::Deepgram, server_url, sample_rate) == listen_address(
            Service::Deepgram,
            server_url,
            other,
        ) ==> sample_rate == other,
{
    reveal_strlit("wss");
    reveal_strlit("ws");
    reveal_strlit("://");
    reveal_strlit("wss://");
    reveal_strlit("ws://");
    let end = "/api/v1/deepgram/listen"@;
    assert("wss"@ + "://"@ + server_url + end =~= "wss://"@ + server_url + end);
    assert("ws"@ + "://"@ + server_url + end =~= "ws://"@ + server_url + end);
    let front = "wss://api.deepgram.com/v1/listen"@ + listen_query();
    let back = "&channels=1"@;
    let a = listen_address(Service::Deepgram, server_url, sample_rate);
    let b = listen_address(Service::Deepgram, server_url, other);
    if a == b {
        let n = front.len() as int;
        assert(a.subrange(n, a.len() - back.len()) =~= decimal(sample_rate as nat));
        assert(b.subrange(n, b.len() - back.len()) =~= decimal(other as nat));
        a_number_reads_back(sample_rate as nat);
        a_number_reads_back(other as nat);
    }
}

/// A connection is made to the host and the port that the address names, or to the usual
/// port where it names none: 443 over TLS, 80 without. Both can be read back.
pub proof fn a_connection_goes_to_the_host_and_the_port(
    service: Service,
    host: Seq<char>,
    port: Option<u16>,
)
    ensures
        ({
            let address = host_and_port(service, host, port);
            let n = host.len() as int;
            let number: u16 = match (port, service) {
                (Some(number), _) => number,
                (None, Service::Hyperwhisper { https: false }) => 80,
                (None, _) => 443,
            };
            &&& address.len() > n
            &&& address.take(n) == host
            &&& address[n] == ':'
            &&& parsed_u32(address.skip(n + 1)) == Some(number as u32)
            &&& address.skip(n + 1) == decimal(number as nat)
        }),
{
    reveal_strlit(":");
    let address = host_and_port(service, host, port);
    let n = host.len() as int;
    let number: u16 = match (port, service) {
        (Some(number), _) => number,
        (None, Service::Hyperwhisper { https: false }) => 80,
        (None, _) => 443,
    };
    assert(address.take(n) =~= host);
    assert(address.skip(n + 1) =~= decimal(number as nat));
    a_number_reads_back(number as nat);
}

/// The headers of a request: the key, unchanged, in the header that the service expects; the
/// host, with its port where TLS is not used; and what asks for a web socket. Nothing else.
pub proof fn the_headers_of_a_request(
    service: Service,
    api_key: Seq<char>,
    url: Seq<char>,
    host: Seq<char>,
    port: Option<u16>,
)
    ensures
        ({
            let e = endpoint_of(service, api_key, url, host, port);
            &&& e.url == url
            &&& e.host == host
            &&& e.address == host_and_port(service, host, port)
            &&& e.tls == (service != (Service::Hyperwhisper { https: false }))
            &&& e.headers.len() == 5
            &&& service is Deepgram ==> {
                &&& e.headers[0].0 == "Authorization"@
                &&& e.headers[0].1.take(6) == "Token "@
                &&& e.headers[0].1.skip(6) == api_key
            }
            &&& service is Hyperwhisper ==> e.headers[0] == ("X-API-Key"@, api_key)
            &&& e.headers[1].0 == "Host"@
            &&& e.tls ==> e.headers[1].1 == host
            &&& !e.tls ==> e.headers[1].1 == e.address
            &&& e.headers[2] == ("Connection"@, "Upgrade"@)
            &&& e.headers[3] == ("Upgrade"@, "websocket"@)
            &&& e.headers[4] == ("Sec-WebSocket-Version"@, "13"@)
        }),
{
    reveal_strlit("Token ");
    let token = "Token "@ + api_key;
    assert(token.take(6) =~= "Token "@);
    assert(token.skip(6) =~= api_key);
}

/// A connection can be prepared exactly where the address names a host; otherwise it is said
/// that it names none, or why it is no address.
pub proof fn an_address_needs_a_host(
    service: Service,
    api_key: Seq<char>,
    url: Seq<char>,
    host: Seq<char>,
    port: Option<u16>,
    reason: Seq<char>,
)
    ensures
        endpoint_result(service, api_key, url, Ok((Some(host), port))) matches Ok(e) && e.url == url
            && e.host == host && e == endpoint_of(service, api_key, url, host, port),
        endpoint_result(service, api_key, url, Ok((None, port))) == Err::<EndpointView, Seq<char>>(
            "No host in URL"@,
        ),
        endpoint_result(service, api_key, url, Err(reason)) matches Err(message) && {
            &&& message.take(13) == "Invalid URL: "@
            &&& message.skip(13) == reason
        },
{
    reveal_strlit("Invalid URL: ");
    let message = "Invalid URL: "@ + reason;
    assert(message.take(13) =~= "Invalid URL: "@);
    assert(message.skip(13) =~= reason);
}

/// A message about the trial service ends in the reason for the failure, as it was given; one
/// about a refusal begins with the code of the answer, which can be read back.
pub proof fn a_failure_names_its_reason(
    request: TrialRequest,
    code: u16,
    body: TrialError,
    reason: String,
)
    ensures
        failure_text(request, TrialFailure::Refused(code, Some(body))) == decimal(code as nat)
            + ": "@ + body.error@,
        failure_text(request, TrialFailure::Refused(code, None)) == decimal(code as nat)
            + ": Request failed"@,
        parsed_u32(decimal(code as nat)) == Some(code as u32),
        ({
            let text = failure_text(request, TrialFailure::Unreachable(reason));
            &&& text.len() >= reason@.len()
            &&& text.skip(text.len() - reason@.len()) == reason@
            &&& begins_with(text, "Failed to "@)
        }),
        ({
            let text = failure_text(request, TrialFailure::Unreadable(reason));
            &&& text.len() >= reason@.len()
            &&& text.skip(text.len() - reason@.len()) == reason@
            &&& begins_with(text, "Failed to parse trial "@)
        }),
{
    reveal_strlit("Failed to ");
    reveal_strlit("Failed to parse trial ");
    reveal_strlit("Failed to provision trial key: ");
    reveal_strlit("Failed to get trial status: ");
    reveal_strlit("Failed to get trial usage: ");
    reveal_strlit("Failed to parse trial response: ");
    reveal_strlit("Failed to parse trial status: ");
    reveal_strlit("Failed to parse trial usage: ");
    a_number_reads_back(code as nat);
    let far = failure_text(request, TrialFailure::Unreachable(reason));
    assert(far.skip(far.len() - reason@.len()) =~= reason@);
    assert(far.subrange(0, 10) =~= "Failed to "@);
    let unread = failure_text(request, TrialFailure::Unreadable(reason));
    assert(unread.skip(unread.len() - reason@.len()) =~= reason@);
    assert(unread.subrange(0, 22) =~= "Failed to parse trial "@);
}

} // verus!
