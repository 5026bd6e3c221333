//! Connection settings of the coordination backend.
use crate::coordination::etcd::error::{CoordinationError, CoordinationFault};
use crate::text;
use crate::time;
use crate::time::Duration;
use vstd::prelude::*;
use vstd::string::*;

verus! {

/// Connection settings for one isolated coordination namespace.
#[derive(Clone, Debug, PartialEq, Eq)]
pub struct EtcdCoordinationConfig {
    pub endpoint: String,
    pub prefix: String,
    pub cluster: String,
}

/// What transport and authentication settings say.
#[verifier::ext_equal]
pub struct ConnectionView {
    pub username: Option<Seq<char>>,
    pub password: Option<Seq<char>>,
    pub ca_certificate: Option<Seq<u8>>,
    pub client_certificate: Option<Seq<u8>>,
    pub client_key: Option<Seq<u8>>,
    pub tls_domain_name: Option<Seq<char>>,
    pub connect_timeout: Option<nat>,
    pub request_timeout: Option<nat>,
    pub keep_alive_interval: Option<nat>,
    pub keep_alive_timeout: Option<nat>,
    pub keep_alive_while_idle: bool,
}

/// Optional transport and authentication settings.
///
/// The default is intentionally suitable for a local, unsecured store started
/// on `127.0.0.1`. Production deployments should configure HTTPS, a trusted
/// CA, and authentication explicitly. Certificate values are PEM encoded.
///
/// This type owns the secret values needed to connect but does not show them
/// in its description.
#[derive(Clone, PartialEq, Eq)]
pub struct EtcdConnectionOptions {
    username: Option<String>,
    password: Option<String>,
    ca_certificate: Option<Vec<u8>>,
    client_certificate: Option<Vec<u8>>,
    client_key: Option<Vec<u8>>,
    tls_domain_name: Option<String>,
    connect_timeout: Option<Duration>,
    request_timeout: Option<Duration>,
    keep_alive_interval: Option<Duration>,
    keep_alive_timeout: Option<Duration>,
    keep_alive_while_idle: bool,
}

impl View for EtcdConnectionOptions {
    type V = ConnectionView;

    closed spec fn view(&self) -> ConnectionView {
        ConnectionView {
            username: self.username.deep_view(),
            password: self.password.deep_view(),
            ca_certificate: self.ca_certificate.deep_view(),
            client_certificate: self.client_certificate.deep_view(),
            client_key: self.client_key.deep_view(),
            tls_domain_name: self.tls_domain_name.deep_view(),
            connect_timeout: self.connect_timeout.deep_view(),
            request_timeout: self.request_timeout.deep_view(),
            keep_alive_interval: self.keep_alive_interval.deep_view(),
            keep_alive_timeout: self.keep_alive_timeout.deep_view(),
            keep_alive_while_idle: self.keep_alive_while_idle,
        }
    }
}

impl ConnectionView {
    /// TLS material or a TLS server name is configured.
    pub open spec fn tls(self) -> bool {
        self.ca_certificate is Some || self.client_certificate is Some || self.client_key is Some
            || self.tls_domain_name is Some
    }

    /// What is wrong with the settings, if anything.
    pub open spec fn fault(self) -> Option<Seq<char>> {
        if self.username is Some != self.password is Some {
            Some("etcd username and password must be configured together"@)
        } else if self.client_certificate is Some != self.client_key is Some {
            Some("etcd client certificate and key must be configured together"@)
        } else if self.ca_certificate matches Some(certificate) && certificate.len() == 0 {
            Some("etcd TLS CA certificate must not be empty"@)
        } else if (self.client_certificate matches Some(certificate) && certificate.len() == 0) || (
        self.client_key matches Some(key) && key.len() == 0) {
            Some("etcd client identity must not be empty"@)
        } else if self.connect_timeout == Some(0nat) {
            Some("etcd connect timeout must be positive"@)
        } else if self.request_timeout == Some(0nat) {
            Some("etcd request timeout must be positive"@)
        } else if self.keep_alive_interval == Some(0nat) {
            Some("etcd keepalive interval timeout must be positive"@)
        } else if self.keep_alive_timeout == Some(0nat) {
            Some("etcd keepalive timeout timeout must be positive"@)
        } else if self.tls_domain_name matches Some(name) && (text::blank(name) || name.contains(
            '\0',
        )) {
            Some("etcd TLS domain name must not be empty or contain NUL"@)
        } else {
            None
        }
    }

    /// The settings as they may be written to a log.
    pub open spec fn description(self) -> Seq<char> {
        "EtcdConnectionOptions { username: "@ + shown(self.username is Some, "<redacted>"@)
            + ", password: "@ + shown(self.password is Some, "<redacted>"@)
            + ", ca_certificate: "@ + shown(self.ca_certificate is Some, "<configured>"@)
            + ", client_certificate: "@ + shown(self.client_certificate is Some, "<configured>"@)
            + ", client_key: "@ + shown(self.client_key is Some, "<redacted>"@)
            + ", tls_domain_name: "@ + (match self.tls_domain_name {
            Some(name) => "Some("@ + text::debug_text(name) + ")"@,
            None => "None"@,
        }) + ", connect_timeout: "@ + shown_time(self.connect_timeout) + ", request_timeout: "@
            + shown_time(self.request_timeout) + ", keep_alive_interval: "@ + shown_time(
            self.keep_alive_interval,
        ) + ", keep_alive_timeout: "@ + shown_time(self.keep_alive_timeout)
            + ", keep_alive_while_idle: "@ + (if self.keep_alive_while_idle {
            "true"@
        } else {
            "false"@
        }) + " }"@
    }
}

/// Whether there is a value, shown by a text in its place.
pub open spec fn shown(present: bool, text: Seq<char>) -> Seq<char> {
    if present {
        "Some(\""@ + text + "\")"@
    } else {
        "None"@
    }
}

/// A span of time that may be missing.
pub open spec fn shown_time(span: Option<nat>) -> Seq<char> {
    match span {
        Some(span) => "Some("@ + time::duration_text(span) + ")"@,
        None => "None"@,
    }
}

/// The description shows neither credentials nor certificates nor keys: it is
/// the same for settings that differ only in their values.
pub proof fn secrets_are_redacted(a: ConnectionView, b: ConnectionView)
    requires
        a.username is Some == b.username is Some,
        a.password is Some == b.password is Some,
        a.ca_certificate is Some == b.ca_certificate is Some,
        a.client_certificate is Some == b.client_certificate is Some,
        a.client_key is Some == b.client_key is Some,
        a.tls_domain_name == b.tls_domain_name,
        a.connect_timeout == b.connect_timeout,
        a.request_timeout == b.request_timeout,
        a.keep_alive_interval == b.keep_alive_interval,
        a.keep_alive_timeout == b.keep_alive_timeout,
        a.keep_alive_while_idle == b.keep_alive_while_idle,
    ensures
        a.description() == b.description(),
{
}

fn show(present: bool, value: &str) -> (r: String)
    ensures
        r@ == shown(present, value@),
{
    if present {
        "Some(\"".to_owned().concat(value).concat("\")")
    } else {
        "None".to_owned()
    }
}

fn show_time(span: Option<Duration>) -> (r: String)
    ensures
        r@ == shown_time(span.deep_view()),
{
    match span {
        Some(span) => "Some(".to_owned().concat(span.to_string().as_str()).concat(")"),
        None => "None".to_owned(),
    }
}

fn is_empty_material(material: &Option<Vec<u8>>) -> (r: bool)
    ensures
        r == (material.deep_view() matches Some(bytes) && bytes.len() == 0),
{
    match material {
        Some(bytes) => bytes.len() == 0,
        None => false,
    }
}

fn is_zero_time(span: Option<Duration>) -> (r: bool)
    ensures
        r == (span.deep_view() == Some(0nat)),
{
    match span {
        Some(span) => span.is_zero(),
        None => false,
    }
}

impl Default for EtcdConnectionOptions {
    /// No settings at all.
    fn default() -> (r: EtcdConnectionOptions)
        ensures
            r@ == (ConnectionView {
                username: None,
                password: None,
                ca_certificate: None,
                client_certificate: None,
                client_key: None,
                tls_domain_name: None,
                connect_timeout: None,
                request_timeout: None,
                keep_alive_interval: None,
                keep_alive_timeout: None,
                keep_alive_while_idle: false,
            }),
    {
        EtcdConnectionOptions {
            username: None,
            password: None,
            ca_certificate: None,
            client_certificate: None,
            client_key: None,
            tls_domain_name: None,
            connect_timeout: None,
            request_timeout: None,
            keep_alive_interval: None,
            keep_alive_timeout: None,
            keep_alive_while_idle: false,
        }
    }
}

impl EtcdConnectionOptions {
    /// Create unsecured local-development options.
    pub fn new() -> (r: EtcdConnectionOptions)
        ensures
            r@ == (ConnectionView {
                username: None,
                password: None,
                ca_certificate: None,
                client_certificate: None,
                client_key: None,
                tls_domain_name: None,
                connect_timeout: None,
                request_timeout: None,
                keep_alive_interval: None,
                keep_alive_timeout: None,
                keep_alive_while_idle: true,
            }),
    {
        EtcdConnectionOptions {
            username: None,
            password: None,
            ca_certificate: None,
            client_certificate: None,
            client_key: None,
            tls_domain_name: None,
            connect_timeout: None,
            request_timeout: None,
            keep_alive_interval: None,
            keep_alive_timeout: None,
            keep_alive_while_idle: true,
        }
    }

    /// Configure username/password authentication.
    pub fn with_user(self, username: &str, password: &str) -> (r: EtcdConnectionOptions)
        ensures
            r@ == (ConnectionView {
                username: Some(username@),
                password: Some(password@),
                ..self@
            }),
    {
        EtcdConnectionOptions {
            username: Some(username.to_owned()),
            password: Some(password.to_owned()),
            ..self
        }
    }

    /// Alias for [`Self::with_user`] that makes the authentication intent explicit.
    pub fn with_credentials(self, username: &str, password: &str) -> (r: EtcdConnectionOptions)
        ensures
            r@ == (ConnectionView {
                username: Some(username@),
                password: Some(password@),
                ..self@
            }),
    {
        self.with_user(username, password)
    }

    /// Configure a PEM-encoded CA certificate for server verification.
    pub fn with_ca_certificate(self, certificate_pem: Vec<u8>) -> (r: EtcdConnectionOptions)
        ensures
            r@ == (ConnectionView { ca_certificate: Some(certificate_pem@), ..self@ }),
    {
        proof {
            assert(certificate_pem.deep_view() =~= certificate_pem@);
        }
        EtcdConnectionOptions { ca_certificate: Some(certificate_pem), ..self }
    }

    /// Alias for [`Self::with_ca_certificate`].
    pub fn with_tls_ca(self, certificate_pem: Vec<u8>) -> (r: EtcdConnectionOptions)
        ensures
            r@ == (ConnectionView { ca_certificate: Some(certificate_pem@), ..self@ }),
    {
        self.with_ca_certificate(certificate_pem)
    }

    /// Configure a PEM-encoded client certificate and private key for mTLS.
    pub fn with_client_identity(self, certificate_pem: Vec<u8>, key_pem: Vec<u8>) -> (r:
        EtcdConnectionOptions)
        ensures
            r@ == (ConnectionView {
                client_certificate: Some(certificate_pem@),
                client_key: Some(key_pem@),
                ..self@
            }),
    {
        proof {
            assert(certificate_pem.deep_view() =~= certificate_pem@);
            assert(key_pem.deep_view() =~= key_pem@);
        }
        EtcdConnectionOptions {
            client_certificate: Some(certificate_pem),
            client_key: Some(key_pem),
            ..self
        }
    }

    /// Alias for [`Self::with_client_identity`].
    pub fn with_client_certificate(self, certificate_pem: Vec<u8>, key_pem: Vec<u8>) -> (r:
        EtcdConnectionOptions)
        ensures
            r@ == (ConnectionView {
                client_certificate: Some(certificate_pem@),
                client_key: Some(key_pem@),
                ..self@
            }),
    {
        self.with_client_identity(certificate_pem, key_pem)
    }

    /// Override the TLS server-name used for certificate verification.
    pub fn with_tls_domain_name(self, domain_name: &str) -> (r: EtcdConnectionOptions)
        ensures
            r@ == (ConnectionView { tls_domain_name: Some(domain_name@), ..self@ }),
    {
        EtcdConnectionOptions { tls_domain_name: Some(domain_name.to_owned()), ..self }
    }

    /// Set the timeout for establishing a connection.
    pub fn with_connect_timeout(self, timeout: Duration) -> (r: EtcdConnectionOptions)
        ensures
            r@ == (ConnectionView { connect_timeout: Some(timeout@), ..self@ }),
    {
        EtcdConnectionOptions { connect_timeout: Some(timeout), ..self }
    }

    /// Set the timeout applied to each request.
    pub fn with_request_timeout(self, timeout: Duration) -> (r: EtcdConnectionOptions)
        ensures
            r@ == (ConnectionView { request_timeout: Some(timeout@), ..self@ }),
    {
        EtcdConnectionOptions { request_timeout: Some(timeout), ..self }
    }

    /// Set the keepalive interval and timeout.
    pub fn with_keep_alive(self, interval: Duration, timeout: Duration) -> (r:
        EtcdConnectionOptions)
        ensures
            r@ == (ConnectionView {
                keep_alive_interval: Some(interval@),
                keep_alive_timeout: Some(timeout@),
                ..self@
            }),
    {
        EtcdConnectionOptions {
            keep_alive_interval: Some(interval),
            keep_alive_timeout: Some(timeout),
            ..self
        }
    }

    /// Enable or disable keepalive pings while no streams are active.
    pub fn with_keep_alive_while_idle(self, enabled: bool) -> (r: EtcdConnectionOptions)
        ensures
            r@ == (ConnectionView { keep_alive_while_idle: enabled, ..self@ }),
    {
        EtcdConnectionOptions { keep_alive_while_idle: enabled, ..self }
    }

    /// Return the configured username.
    pub fn username(&self) -> (r: Option<&str>)
        ensures
            match r {
                Some(value) => self@.username == Some(value@),
                None => self@.username is None,
            },
    {
        match &self.username {
            Some(value) => Some(value.as_str()),
            None => None,
        }
    }

    /// Return the configured password.
    pub fn password(&self) -> (r: Option<&str>)
        ensures
            match r {
                Some(value) => self@.password == Some(value@),
                None => self@.password is None,
            },
    {
        match &self.password {
            Some(value) => Some(value.as_str()),
            None => None,
        }
    }

    /// Return the configured CA certificate.
    pub fn ca_certificate(&self) -> (r: Option<&Vec<u8>>)
        ensures
            match r {
                Some(value) => self@.ca_certificate == Some(value@),
                None => self@.ca_certificate is None,
            },
    {
        match &self.ca_certificate {
            Some(value) => {
                assert(value.deep_view() =~= value@);
                Some(value)
            },
            None => None,
        }
    }

    /// Return the configured client certificate.
    pub fn client_certificate(&self) -> (r: Option<&Vec<u8>>)
        ensures
            match r {
                Some(value) => self@.client_certificate == Some(value@),
                None => self@.client_certificate is None,
            },
    {
        match &self.client_certificate {
            Some(value) => {
                assert(value.deep_view() =~= value@);
                Some(value)
            },
            None => None,
        }
    }

    /// Return the configured client key.
    pub fn client_key(&self) -> (r: Option<&Vec<u8>>)
        ensures
            match r {
                Some(value) => self@.client_key == Some(value@),
                None => self@.client_key is None,
            },
    {
        match &self.client_key {
            Some(value) => {
                assert(value.deep_view() =~= value@);
                Some(value)
            },
            None => None,
        }
    }

    /// Return the configured TLS domain name.
    pub fn tls_domain_name(&self) -> (r: Option<&str>)
        ensures
            match r {
                Some(value) => self@.tls_domain_name == Some(value@),
                None => self@.tls_domain_name is None,
            },
    {
        match &self.tls_domain_name {
            Some(value) => Some(value.as_str()),
            None => None,
        }
    }

    /// Return the configured connect timeout.
    pub fn connect_timeout(&self) -> (r: Option<Duration>)
        ensures
            r.deep_view() == self@.connect_timeout,
    {
        self.connect_timeout
    }

    /// Return the configured request timeout.
    pub fn request_timeout(&self) -> (r: Option<Duration>)
        ensures
            r.deep_view() == self@.request_timeout,
    {
        self.request_timeout
    }

    /// Return the configured keep alive interval.
    pub fn keep_alive_interval(&self) -> (r: Option<Duration>)
        ensures
            r.deep_view() == self@.keep_alive_interval,
    {
        self.keep_alive_interval
    }

    /// Return the configured keep alive timeout.
    pub fn keep_alive_timeout(&self) -> (r: Option<Duration>)
        ensures
            r.deep_view() == self@.keep_alive_timeout,
    {
        self.keep_alive_timeout
    }

    /// Return whether keepalive pings are sent while no streams are active.
    pub fn keep_alive_while_idle(&self) -> (r: bool)
        ensures
            r == self@.keep_alive_while_idle,
    {
        self.keep_alive_while_idle
    }

    /// Return whether TLS material or a TLS server name was configured.
    pub fn tls_enabled(&self) -> (r: bool)
        ensures
            r == self@.tls(),
    {
        self.ca_certificate.is_some() || self.client_certificate.is_some()
            || self.client_key.is_some() || self.tls_domain_name.is_some()
    }

    /// Validate settings before attempting a network connection.
    pub fn validate(&self) -> (r: Result<(), String>)
        ensures
            match r {
                Ok(()) => self@.fault() is None,
                Err(message) => self@.fault() == Some(message@),
            },
    {
        if self.username.is_some() != self.password.is_some() {
            return Err("etcd username and password must be configured together".to_owned());
        }
        if self.client_certificate.is_some() != self.client_key.is_some() {
            return Err("etcd client certificate and key must be configured together".to_owned());
        }
        if is_empty_material(&self.ca_certificate) {
            return Err("etcd TLS CA certificate must not be empty".to_owned());
        }
        if is_empty_material(&self.client_certificate) || is_empty_material(&self.client_key) {
            return Err("etcd client identity must not be empty".to_owned());
        }
        if is_zero_time(self.connect_timeout) {
            return Err("etcd connect timeout must be positive".to_owned());
        }
        if is_zero_time(self.request_timeout) {
            return Err("etcd request timeout must be positive".to_owned());
        }
        if is_zero_time(self.keep_alive_interval) {
            return Err("etcd keepalive interval timeout must be positive".to_owned());
        }
        if is_zero_time(self.keep_alive_timeout) {
            return Err("etcd keepalive timeout timeout must be positive".to_owned());
        }
        if let Some(name) = &self.tls_domain_name {
            if text::is_blank(name.as_str()) || text::has_char(name.as_str(), '\0') {
                return Err("etcd TLS domain name must not be empty or contain NUL".to_owned());
            }
        }
        Ok(())
    }

    /// The settings as they may be written to a log, without their secrets.
    pub fn describe(&self) -> (r: String)
        ensures
            r@ == self@.description(),
    {
        let domain = match &self.tls_domain_name {
            Some(name) => "Some(".to_owned().concat(text::quoted(name.as_str()).as_str()).concat(
                ")",
            ),
            None => "None".to_owned(),
        };
        let idle = if self.keep_alive_while_idle {
            "true"
        } else {
            "false"
        };
        "EtcdConnectionOptions { username: ".to_owned().concat(
            show(self.username.is_some(), "<redacted>").as_str(),
        ).concat(", password: ").concat(
            show(self.password.is_some(), "<redacted>").as_str(),
        ).concat(", ca_certificate: ").concat(
            show(self.ca_certificate.is_some(), "<configured>").as_str(),
        ).concat(", client_certificate: ").concat(
            show(self.client_certificate.is_some(), "<configured>").as_str(),
        ).concat(", client_key: ").concat(
            show(self.client_key.is_some(), "<redacted>").as_str(),
        ).concat(", tls_domain_name: ").concat(domain.as_str()).concat(
            ", connect_timeout: ",
        ).concat(show_time(self.connect_timeout).as_str()).concat(", request_timeout: ").concat(
            show_time(self.request_timeout).as_str(),
        ).concat(", keep_alive_interval: ").concat(
            show_time(self.keep_alive_interval).as_str(),
        ).concat(", keep_alive_timeout: ").concat(
            show_time(self.keep_alive_timeout).as_str(),
        ).concat(", keep_alive_while_idle: ").concat(idle).concat(" }")
    }
}

/// An endpoint list can be connected to: it is not empty, and no endpoint is
/// blank.
pub fn validate_endpoints(endpoints: &Vec<String>) -> (r: Result<(), CoordinationError>)
    ensures
        match r {
            Ok(()) => endpoints@.len() > 0 && forall|i: int|
                0 <= i < endpoints@.len() ==> !text::blank((#[trigger] endpoints@[i])@),
            Err(error) => error@ == CoordinationFault::InvalidValue && (endpoints@.len() == 0
                || exists|i: int|
                0 <= i < endpoints@.len() && text::blank((#[trigger] endpoints@[i])@)),
        },
{
    if endpoints.len() == 0 {
        return Err(CoordinationError::InvalidValue);
    }
    let mut i: usize = 0;
    while i < endpoints.len()
        invariant
            i <= endpoints@.len(),
            forall|j: int| 0 <= j < i ==> !text::blank((#[trigger] endpoints@[j])@),
        decreases endpoints@.len() - i,
    {
        if text::is_blank(endpoints[i].as_str()) {
            assert(text::blank(endpoints@[i as int]@));
            return Err(CoordinationError::InvalidValue);
        }
        i = i + 1;
    }
    Ok(())
}

} // verus!
