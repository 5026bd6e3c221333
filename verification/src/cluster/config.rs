//! Connection settings of an application.
use crate::admin::instances;
use crate::cluster::error::{ApplicationError, ApplicationFault, ConfigError, ConfigFault};
use crate::coordination::etcd::options;
use crate::coordination::etcd::EtcdConnectionOptions;
use crate::text;
use crate::time::Duration;
use vstd::prelude::*;
use vstd::string::*;

verus! {

/// The milliseconds of a lease.
pub fn lease_ttl_millis(lease_ttl: Duration) -> (r: Result<u64, ApplicationError>)
    ensures
        match r {
            Ok(millis) => millis == lease_ttl@ / 1_000_000,
            Err(error) => lease_ttl@ / 1_000_000 > u64::MAX && error@ == ApplicationFault::Config(
                ConfigFault::Invalid("controller lease TTL is too large"@),
            ),
        },
{
    let secs: u64 = lease_ttl.as_secs();
    let rest: u64 = lease_ttl.subsec_nanos() as u64 / 1_000_000;
    proof {
        assert(lease_ttl@ / 1_000_000 == secs * 1_000 + rest) by (nonlinear_arith)
            requires
                secs == lease_ttl@ / 1_000_000_000,
                rest == (lease_ttl@ % 1_000_000_000) / 1_000_000,
        ;
    }
    if let Some(millis) = secs.checked_mul(1_000) {
        if let Some(total) = millis.checked_add(rest) {
            return Ok(total);
        }
    }
    Err(
        ApplicationError::Config(
            ConfigError::Invalid("controller lease TTL is too large".to_owned()),
        ),
    )
}

/// What connection settings say.
#[verifier::ext_equal]
pub struct ConfigView {
    pub cluster: Seq<char>,
    pub endpoints: Seq<Seq<char>>,
    pub namespace: Seq<char>,
    pub connection: options::ConnectionView,
}

impl ConfigView {
    /// The settings of a local cluster.
    pub open spec fn local(cluster: Seq<char>) -> ConfigView {
        ConfigView {
            cluster,
            endpoints: seq!["http://127.0.0.1:2379"@],
            namespace: "/clustodian/"@ + cluster,
            connection: local_connection(),
        }
    }

    /// The first reason why the settings may not be used.
    pub open spec fn fault(self) -> Option<ConfigFault> {
        if !instances::storable(self.cluster) {
            Some(ConfigFault::Invalid("cluster name must not be empty or contain NUL"@))
        } else if self.endpoints.len() == 0 || exists|i: int|
            0 <= i < self.endpoints.len() && text::blank(#[trigger] self.endpoints[i]) {
            Some(ConfigFault::Invalid("at least one non-empty etcd endpoint is required"@))
        } else if !instances::storable(self.namespace) {
            Some(ConfigFault::Invalid("namespace must not be empty or contain NUL"@))
        } else {
            match self.connection.fault() {
                Some(message) => Some(ConfigFault::Invalid(message)),
                None => None,
            }
        }
    }
}

/// Unsecured connection settings.
pub open spec fn local_connection() -> options::ConnectionView {
    options::ConnectionView {
        username: None,
        password: None,
        ca_certificate: None,
        client_certificate: None,
        client_key: None,
        tls_domain_name: None,
        connect_timeout: None,
        request_timeout: None,
        keep_alive_interval: None,
        keep_alive_timeout: None,
        keep_alive_while_idle: true,
    }
}

/// Connection settings for one cluster.
#[derive(Clone, PartialEq, Eq)]
pub struct ClusterConfig {
    cluster: String,
    endpoints: Vec<String>,
    namespace: String,
    connection_options: EtcdConnectionOptions,
}

impl View for ClusterConfig {
    type V = ConfigView;

    closed spec fn view(&self) -> ConfigView {
        ConfigView {
            cluster: self.cluster@,
            endpoints: self.endpoints.deep_view(),
            namespace: self.namespace@,
            connection: self.connection_options@,
        }
    }
}

/// The settings that a process environment gives. A file that a variable names
/// is given by its contents, or by the message for why it could not be read.
pub struct Environment {
    pub cluster: Option<String>,
    pub endpoints: Option<String>,
    pub namespace: Option<String>,
    pub username: Option<String>,
    pub password: Option<String>,
    pub ca_certificate: Option<Result<Vec<u8>, String>>,
    pub client_certificate: Option<Result<Vec<u8>, String>>,
    pub client_key: Option<Result<Vec<u8>, String>>,
    pub tls_domain_name: Option<String>,
}

/// What the file that a variable names holds.
pub open spec fn material(file: Option<Result<Vec<u8>, String>>) -> Option<
    Result<Seq<u8>, Seq<char>>,
> {
    match file {
        None => None,
        Some(Ok(bytes)) => Some(Ok(bytes@)),
        Some(Err(message)) => Some(Err(message@)),
    }
}

/// The settings that a process environment gives.
pub struct EnvironmentView {
    pub cluster: Option<Seq<char>>,
    pub endpoints: Option<Seq<char>>,
    pub namespace: Option<Seq<char>>,
    pub username: Option<Seq<char>>,
    pub password: Option<Seq<char>>,
    pub ca_certificate: Option<Result<Seq<u8>, Seq<char>>>,
    pub client_certificate: Option<Result<Seq<u8>, Seq<char>>>,
    pub client_key: Option<Result<Seq<u8>, Seq<char>>>,
    pub tls_domain_name: Option<Seq<char>>,
}

impl View for Environment {
    type V = EnvironmentView;

    open spec fn view(&self) -> EnvironmentView {
        EnvironmentView {
            cluster: self.cluster.deep_view(),
            endpoints: self.endpoints.deep_view(),
            namespace: self.namespace.deep_view(),
            username: self.username.deep_view(),
            password: self.password.deep_view(),
            ca_certificate: material(self.ca_certificate),
            client_certificate: material(self.client_certificate),
            client_key: material(self.client_key),
            tls_domain_name: self.tls_domain_name.deep_view(),
        }
    }
}

/// The endpoints of a list, with the white space around each left out.
pub open spec fn endpoints_in(list: Seq<char>) -> Seq<Seq<char>> {
    let parts = text::parts_of(list, ',');
    Seq::new(parts.len(), |i: int| text::trimmed(parts[i]))
}

impl EnvironmentView {
    /// The first reason why the environment gives no settings.
    pub open spec fn fault(self) -> Option<Seq<char>> {
        if self.username is Some != self.password is Some {
            Some("CLUSTODIAN_ETCD_USERNAME and CLUSTODIAN_ETCD_PASSWORD must be set together"@)
        } else if let Some(Err(message)) = self.ca_certificate {
            Some("failed to read etcd CA certificate: "@ + message)
        } else {
            match (self.client_certificate, self.client_key) {
                (Some(Err(message)), Some(_)) => Some(
                    "failed to read etcd client certificate: "@ + message,
                ),
                (Some(Ok(_)), Some(Err(message))) => Some(
                    "failed to read etcd client key: "@ + message,
                ),
                (Some(_), None) => Some(unpaired_identity()),
                (None, Some(_)) => Some(unpaired_identity()),
                _ => None,
            }
        }
    }

    /// The settings that the environment gives.
    pub open spec fn config(self) -> ConfigView {
        let cluster = match self.cluster {
            Some(cluster) => cluster,
            None => "default"@,
        };
        ConfigView {
            cluster,
            endpoints: endpoints_in(
                match self.endpoints {
                    Some(endpoints) => endpoints,
                    None => "http://127.0.0.1:2379"@,
                },
            ),
            namespace: match self.namespace {
                Some(namespace) => namespace,
                None => "/clustodian/"@ + cluster,
            },
            connection: options::ConnectionView {
                username: self.username,
                password: self.password,
                ca_certificate: match self.ca_certificate {
                    Some(Ok(bytes)) => Some(bytes),
                    _ => None,
                },
                client_certificate: match self.client_certificate {
                    Some(Ok(bytes)) => Some(bytes),
                    _ => None,
                },
                client_key: match self.client_key {
                    Some(Ok(bytes)) => Some(bytes),
                    _ => None,
                },
                tls_domain_name: self.tls_domain_name,
                ..local_connection()
            },
        }
    }
}

/// The message for half a client identity.
pub open spec fn unpaired_identity() -> Seq<char> {
    "CLUSTODIAN_ETCD_CLIENT_CERT_FILE and CLUSTODIAN_ETCD_CLIENT_KEY_FILE must be set together"@
}

fn read_endpoints(list: &str) -> (r: Vec<String>)
    ensures
        r.deep_view() == endpoints_in(list@),
{
    let parts = text::split(list, ',');
    let ghost all = parts.deep_view();
    let ghost model = endpoints_in(list@);
    let mut out: Vec<String> = Vec::new();
    let mut i: usize = 0;
    assert(out.deep_view() =~= model.take(0));
    while i < parts.len()
        invariant
            i <= parts@.len(),
            all == parts.deep_view(),
            all == text::parts_of(list@, ','),
            model == endpoints_in(list@),
            out.deep_view() == model.take(i as int),
        decreases parts@.len() - i,
    {
        let ghost before = out.deep_view();
        let endpoint = text::trim(parts[i].as_str());
        let ghost trimmed = endpoint@;
        assert(all[i as int] == parts@[i as int]@);
        out.push(endpoint);
        proof {
            assert(trimmed == model[i as int]);
            assert(out.deep_view() =~= before.push(trimmed));
            assert(model.take(i + 1) =~= model.take(i as int).push(model[i as int]));
        }
        i = i + 1;
    }
    assert(model.take(i as int) =~= model);
    out
}

fn or_default(value: Option<String>, default: &str) -> (r: String)
    ensures
        r@ == match value.deep_view() {
            Some(value) => value,
            None => default@,
        },
{
    match value {
        Some(value) => value,
        None => default.to_owned(),
    }
}

impl ClusterConfig {
    /// Create local-development configuration for a logical cluster.
    pub fn new(cluster: &str) -> (r: ClusterConfig)
        ensures
            r@ == ConfigView::local(cluster@),
    {
        let mut endpoints: Vec<String> = Vec::new();
        endpoints.push("http://127.0.0.1:2379".to_owned());
        assert(endpoints.deep_view() =~= seq!["http://127.0.0.1:2379"@]);
        ClusterConfig {
            namespace: "/clustodian/".to_owned().concat(cluster),
            cluster: cluster.to_owned(),
            endpoints,
            connection_options: EtcdConnectionOptions::new(),
        }
    }

    /// Load configuration from the settings of a process environment.
    pub fn from_env(environment: Environment) -> (r: Result<ClusterConfig, ConfigError>)
        ensures
            match r {
                Ok(config) => environment@.fault() is None && environment@.config().fault() is None
                    && config@ == environment@.config(),
                Err(error) => match environment@.fault() {
                    Some(message) => error@ == ConfigFault::Invalid(message),
                    None => environment@.config().fault() == Some(error@),
                },
            },
    {
        let ghost model = environment@;
        let cluster = or_default(environment.cluster, "default");
        let default_namespace = "/clustodian/".to_owned().concat(cluster.as_str());
        let endpoints = or_default(environment.endpoints, "http://127.0.0.1:2379");
        let namespace = or_default(environment.namespace, default_namespace.as_str());
        let mut options = EtcdConnectionOptions::new();
        match (environment.username, environment.password) {
            (Some(username), Some(password)) => {
                options = options.with_user(username.as_str(), password.as_str());
            },
            (None, None) => {},
            _ => {
                return Err(
                    ConfigError::Invalid(
                        "CLUSTODIAN_ETCD_USERNAME and CLUSTODIAN_ETCD_PASSWORD must be set together".to_owned(),
                    ),
                );
            },
        }
        match environment.ca_certificate {
            None => {},
            Some(Ok(certificate)) => {
                options = options.with_ca_certificate(certificate);
            },
            Some(Err(message)) => {
                return Err(
                    ConfigError::Invalid(
                        "failed to read etcd CA certificate: ".to_owned().concat(message.as_str()),
                    ),
                );
            },
        }
        match (environment.client_certificate, environment.client_key) {
            (Some(Err(message)), Some(_)) => {
                return Err(
                    ConfigError::Invalid(
                        "failed to read etcd client certificate: ".to_owned().concat(
                            message.as_str(),
                        ),
                    ),
                );
            },
            (Some(Ok(_)), Some(Err(message))) => {
                return Err(
                    ConfigError::Invalid(
                        "failed to read etcd client key: ".to_owned().concat(message.as_str()),
                    ),
                );
            },
            (Some(Ok(certificate)), Some(Ok(key))) => {
                options = options.with_client_identity(certificate, key);
            },
            (None, None) => {},
            _ => {
                return Err(
                    ConfigError::Invalid(
                        "CLUSTODIAN_ETCD_CLIENT_CERT_FILE and CLUSTODIAN_ETCD_CLIENT_KEY_FILE must be set together".to_owned(),
                    ),
                );
            },
        }
        if let Some(domain) = environment.tls_domain_name {
            options = options.with_tls_domain_name(domain.as_str());
        }
        let config = ClusterConfig::new(cluster.as_str()).etcd_endpoints(
            read_endpoints(endpoints.as_str()),
        ).namespace(namespace.as_str()).etcd_connection_options(options);
        assert(config@ =~= model.config());
        config.validate()
    }

    /// Set the ordered etcd endpoints used for client failover.
    pub fn etcd_endpoints(self, endpoints: Vec<String>) -> (r: ClusterConfig)
        ensures
            r@ == (ConfigView { endpoints: endpoints.deep_view(), ..self@ }),
    {
        ClusterConfig { endpoints, ..self }
    }

    /// Set the coordination namespace, called a prefix by the backend API.
    pub fn namespace(self, namespace: &str) -> (r: ClusterConfig)
        ensures
            r@ == (ConfigView { namespace: namespace@, ..self@ }),
    {
        ClusterConfig { namespace: namespace.to_owned(), ..self }
    }

    /// Set typed etcd transport, TLS, and authentication options.
    pub fn etcd_connection_options(self, options: EtcdConnectionOptions) -> (r: ClusterConfig)
        ensures
            r@ == (ConfigView { connection: options@, ..self@ }),
    {
        ClusterConfig { connection_options: options, ..self }
    }

    /// Alias for [`Self::etcd_connection_options`].
    pub fn etcd_options(self, options: EtcdConnectionOptions) -> (r: ClusterConfig)
        ensures
            r@ == (ConfigView { connection: options@, ..self@ }),
    {
        self.etcd_connection_options(options)
    }

    /// Return the logical cluster name.
    pub fn cluster(&self) -> (r: &str)
        ensures
            r@ == self@.cluster,
    {
        self.cluster.as_str()
    }

    /// Return the configured etcd endpoints.
    pub fn endpoints(&self) -> (r: &Vec<String>)
        ensures
            r.deep_view() == self@.endpoints,
    {
        &self.endpoints
    }

    /// Return the configured coordination namespace.
    pub fn namespace_value(&self) -> (r: &str)
        ensures
            r@ == self@.namespace,
    {
        self.namespace.as_str()
    }

    /// Return the typed etcd connection options.
    pub fn connection_options(&self) -> (r: &EtcdConnectionOptions)
        ensures
            r@ == self@.connection,
    {
        &self.connection_options
    }

    /// Validate the settings before they are used.
    pub fn validate(self) -> (r: Result<ClusterConfig, ConfigError>)
        ensures
            match r {
                Ok(config) => self@.fault() is None && config@ == self@,
                Err(error) => self@.fault() == Some(error@),
            },
    {
        if !instances::is_storable(self.cluster.as_str()) {
            return Err(
                ConfigError::Invalid("cluster name must not be empty or contain NUL".to_owned()),
            );
        }
        let ghost endpoints = self@.endpoints;
        if !usable_endpoints(&self.endpoints) {
            return Err(
                ConfigError::Invalid("at least one non-empty etcd endpoint is required".to_owned()),
            );
        }
        if !instances::is_storable(self.namespace.as_str()) {
            return Err(
                ConfigError::Invalid("namespace must not be empty or contain NUL".to_owned()),
            );
        }
        match self.connection_options.validate() {
            Ok(()) => Ok(self),
            Err(message) => Err(ConfigError::Invalid(message)),
        }
    }
}

fn usable_endpoints(endpoints: &Vec<String>) -> (r: bool)
    ensures
        r == !(endpoints.deep_view().len() == 0 || exists|i: int|
            0 <= i < endpoints.deep_view().len() && text::blank(
                #[trigger] endpoints.deep_view()[i],
            )),
{
    let ghost all = endpoints.deep_view();
    let mut i: usize = 0;
    while i < endpoints.len()
        invariant
            i <= endpoints@.len(),
            all == endpoints.deep_view(),
            forall|j: int| 0 <= j < i ==> !text::blank(#[trigger] all[j]),
        decreases endpoints@.len() - i,
    {
        assert(all[i as int] == endpoints@[i as int]@);
        if text::is_blank(endpoints[i].as_str()) {
            return false;
        }
        i = i + 1;
    }
    endpoints.len() > 0
}

} // verus!
