use clustodian::admin::instances::{
    cluster_identity_result, decode_instances, ensure_cluster, InstancesAction,
};
use clustodian::admin::limits::{put_throttles, put_transition_limits, transition_limit_record};
use clustodian::admin::resources::{needs_write, put_resource, remove_resource};
use clustodian::admin::{
    CrushTopologySpec, InstanceRemoval, InstanceUpdate, PlacementSpec, ThrottleSpec,
    TransitionLimitSpec, TransitionLimitTarget, TransitionRebalanceType,
};
use clustodian::cluster::{
    handled_resources, lease_ttl_millis, run_outcome, set_transition_limits, ApplyAction,
    Environment, SpecApplication,
};
use clustodian::controller::records::{Decoded, InstanceConfigRecord};
use clustodian::coordination::etcd::{CoordinationError, EtcdConnectionOptions, Revision};
use clustodian::model::{InstanceId, ResourceId, SessionId};
use clustodian::observe::WaitError;
use clustodian::ordered::OrderedMap;
use clustodian::participant::ParticipantRuntimeError;
use clustodian::routing::RoutingError;
use clustodian::time::Duration;
use clustodian::{
    ApplicationError, ClusterConfig, ClusterSpec, ConfigError, Error, InstanceSpec, Placement,
    ResourceSpec, StateModel, Topology, TransitionLimit, TransitionType,
};
use serde_json::Value;

fn lists(entries: &[(&str, &[&str])]) -> OrderedMap<String, Vec<String>> {
    let mut map = OrderedMap::new();
    for (name, instances) in entries {
        map.insert((*name).to_owned(), instances.iter().map(|item| (*item).to_owned()).collect());
    }
    map
}

#[test]
fn runtime_error_and_noop_failpoints_are_stable() {
    let error = Error::new("runtime failure");
    assert_eq!(error.to_string(), "runtime failure");
    assert_eq!(
        Error::new(&std::io::Error::other("io failure").to_string()).to_string(),
        "io failure"
    );
}

fn decode_configs(text: Option<&str>) -> Decoded<Vec<InstanceConfigRecord>> {
    let Some(text) = text else {
        return Decoded::Missing;
    };
    let field = |item: &Value, name: &str| item.get(name)?.as_str().map(str::to_owned);
    let decoded = serde_json::from_str::<Value>(text).ok().and_then(|value| {
        value
            .as_array()?
            .iter()
            .map(|item| {
                Some(InstanceConfigRecord {
                    name: field(item, "name")?,
                    zone: field(item, "zone")?,
                })
            })
            .collect::<Option<Vec<InstanceConfigRecord>>>()
    });
    match decoded {
        Some(value) => Decoded::Value(value),
        None => Decoded::Malformed(String::from("malformed")),
    }
}

#[test]
fn decodes_optional_instance_metadata_and_rejects_bad_json() {
    assert!(decode_instances(&decode_configs(None)).unwrap().is_empty());
    assert!(decode_instances(&decode_configs(Some("[]"))).unwrap().is_empty());
    let instances =
        decode_instances(&decode_configs(Some(r#"[{"name":"node-a","zone":"zone-a"}]"#))).unwrap();
    assert_eq!(instances[0].name, "node-a");
    assert_eq!(instances[0].zone, "zone-a");
    assert!(decode_instances(&decode_configs(Some("not-json"))).is_err());
    let topology = CrushTopologySpec::new("/zone/instance", "zone", "instance");
    assert_eq!(topology.path, "/zone/instance");
    assert_eq!(topology.fault_zone_type, "zone");
    assert_eq!(topology.end_node_type, "instance");
}

#[test]
fn transition_limits_encode_all_targets_and_rebalance_types() {
    let cases = [
        (
            TransitionLimitTarget::Cluster,
            TransitionRebalanceType::Any,
            ("CLUSTER", None, None, "ANY"),
        ),
        (
            TransitionLimitTarget::Resource(ResourceId::new("documents").unwrap()),
            TransitionRebalanceType::RecoveryBalance,
            ("RESOURCE", Some("documents"), None, "RECOVERY_BALANCE"),
        ),
        (
            TransitionLimitTarget::Instance(InstanceId::new("node-a").unwrap()),
            TransitionRebalanceType::LoadBalance,
            ("INSTANCE", None, Some("node-a"), "LOAD_BALANCE"),
        ),
    ];

    for (target, rebalance_type, expected) in cases {
        let record = transition_limit_record(&TransitionLimitSpec {
            target,
            rebalance_type,
            max_in_flight: 3,
        });
        assert_eq!(record.scope, expected.0);
        assert_eq!(record.resource.as_deref(), expected.1);
        assert_eq!(record.instance.as_deref(), expected.2);
        assert_eq!(record.rebalance_type, expected.3);
        assert_eq!(record.max_in_flight, 3);
    }
}

#[test]
fn configuration_and_application_errors_have_operator_messages() {
    assert_eq!(
        ConfigError::Missing(String::from("CLUSTODIAN_CLUSTER")).to_string(),
        "missing configuration value CLUSTODIAN_CLUSTER"
    );
    assert_eq!(
        ConfigError::Invalid(String::from("bad configuration")).to_string(),
        "bad configuration"
    );

    let io = |message: &str| std::io::Error::other(message.to_owned()).to_string();
    let errors = [
        ApplicationError::Config(ConfigError::Invalid(String::from("config"))),
        ApplicationError::Coordination(CoordinationError::InvalidValue),
        ApplicationError::Runtime(Error::new("runtime")),
        ApplicationError::Spec(String::from("spec")),
        ApplicationError::Participant(ParticipantRuntimeError::Io(String::from("participant"))),
        ApplicationError::Controller(Error::new("controller")),
        ApplicationError::Callback(io("callback")),
        ApplicationError::Signal(io("signal")),
        ApplicationError::Routing(RoutingError::InvalidResource(String::from("resource"))),
        ApplicationError::Wait(WaitError::Timeout(Duration::from_secs(1))),
    ];
    let messages = errors.iter().map(ApplicationError::to_string).collect::<Vec<_>>();
    assert_eq!(
        messages,
        vec![
            "config",
            "coordination value is invalid UTF-8",
            "runtime",
            "spec",
            "participant runtime error: participant",
            "controller runtime error: controller",
            "application callback failed: callback",
            "signal handler setup failed: signal",
            "invalid resource \"resource\"",
            "observation timed out after 1s",
        ]
    );

    let source_errors = [
        ApplicationError::Config(ConfigError::Invalid(String::from("config"))),
        ApplicationError::Coordination(CoordinationError::InvalidValue),
        ApplicationError::Runtime(Error::new("runtime")),
        ApplicationError::Participant(ParticipantRuntimeError::Io(String::from("participant"))),
        ApplicationError::Controller(Error::new("controller")),
        ApplicationError::Callback(io("callback")),
        ApplicationError::Signal(io("signal")),
        ApplicationError::Routing(RoutingError::InvalidResource(String::from("resource"))),
        ApplicationError::Wait(WaitError::Timeout(Duration::from_secs(1))),
    ];
    for error in source_errors {
        assert!(error.has_source());
    }
    assert!(!ApplicationError::Spec(String::from("spec")).has_source());
    assert!(matches!(
        ApplicationError::from(ConfigError::Invalid(String::from("config"))),
        ApplicationError::Config(_)
    ));
    assert!(matches!(
        ApplicationError::from(CoordinationError::InvalidValue),
        ApplicationError::Coordination(_)
    ));
    assert!(matches!(
        ApplicationError::from(Error::new("runtime")),
        ApplicationError::Runtime(_)
    ));
    assert!(matches!(
        ApplicationError::from(ParticipantRuntimeError::InvalidMessage),
        ApplicationError::Participant(_)
    ));
    assert!(matches!(
        ApplicationError::from(RoutingError::InvalidResource(String::from("resource"))),
        ApplicationError::Routing(_)
    ));
    assert!(matches!(
        ApplicationError::from(WaitError::Timeout(Duration::from_secs(1))),
        ApplicationError::Wait(_)
    ));
}

#[test]
fn controller_lease_ttl_conversion_is_checked() {
    assert_eq!(
        lease_ttl_millis(Duration::from_millis(1_500))
            .unwrap_or_else(|error| panic!("{}", error.to_string())),
        1_500
    );
    assert!(lease_ttl_millis(Duration::from_secs(u64::MAX)).is_err());
}

fn config(cluster: &str, endpoints: &[&str], namespace: &str) -> ClusterConfig {
    ClusterConfig::new(cluster)
        .etcd_endpoints(endpoints.iter().map(|item| (*item).to_owned()).collect())
        .namespace(namespace)
        .etcd_connection_options(EtcdConnectionOptions::new())
}

#[test]
fn configuration_validation_rejects_empty_values() {
    let invalid = [
        config("", &["http://etcd"], "/namespace"),
        config("cluster", &[], "/namespace"),
        config("cluster", &[" "], "/namespace"),
        config("cluster", &["http://etcd"], ""),
    ];
    for config in invalid {
        assert!(config.validate().is_err());
    }

    assert!(config("bad\0cluster", &["http://etcd"], "/namespace").validate().is_err());
    assert!(config("cluster", &["http://etcd"], "bad\0namespace").validate().is_err());
}

#[test]
fn application_builders_convert_all_supported_variants() {
    let instance: InstanceSpec = "node-a".into();
    assert_eq!(instance.zone, "default");
    let instance: InstanceSpec = String::from("node-b").into();
    assert_eq!(instance.zone, "default");
    assert_eq!(instance.zone("zone-b").zone, "zone-b");

    assert_eq!(Topology::zones().path, "/zone/instance");
    let topology = Topology::new("/rack/instance", "rack", "instance");
    let low_level = topology.clone().into_low_level();
    assert_eq!(low_level.path, "/rack/instance");
    assert_eq!(low_level.fault_zone_type, "rack");
    assert_eq!(low_level.end_node_type, "instance");

    assert_eq!(Placement::crush().build(), Placement::Crush);
    assert_eq!(
        Placement::crush().topology(topology),
        Placement::CrushWithTopology(Topology::new("/rack/instance", "rack", "instance"))
    );
    let preferences = lists(&[("p0", &["node-a"])]);
    assert_eq!(
        Placement::semi_auto(preferences.clone()).into_low_level(),
        PlacementSpec::SemiAuto { preference_lists: preferences }
    );
    assert_eq!(
        Placement::CrushWithTopology(Topology::zones()).into_low_level(),
        PlacementSpec::CrushWithTopology {
            topology: CrushTopologySpec::new("/zone/instance", "zone", "instance"),
        }
    );

    let resource = ResourceSpec::leader_standby("documents").partitions(2).replicas(2);
    let low_level = resource.clone().into_low_level();
    assert_eq!(low_level.name, "documents");
    assert_eq!(low_level.partitions, 2);
    assert_eq!(low_level.replicas, 2);
    assert_eq!(low_level.state_model, "LeaderStandby");
    assert_eq!(resource.state_model, StateModel::LeaderStandby);
}

#[test]
fn typed_transition_limits_convert_without_stringly_inputs() {
    let low_level = |limit: TransitionLimit| {
        limit.into_low_level().unwrap_or_else(|error| panic!("{}", error.to_string()))
    };
    let cluster = low_level(TransitionLimit::cluster(10));
    assert_eq!(cluster.target, TransitionLimitTarget::Cluster);
    assert_eq!(cluster.rebalance_type, TransitionRebalanceType::Any);
    assert_eq!(cluster.max_in_flight, 10);

    let resource = low_level(
        TransitionLimit::resource("database", 2).transition_type(TransitionType::LoadBalance),
    );
    assert_eq!(
        resource.target,
        TransitionLimitTarget::Resource(ResourceId::new("database").unwrap())
    );
    assert_eq!(resource.rebalance_type, TransitionRebalanceType::LoadBalance);
    assert!(TransitionLimit::resource("", 2).into_low_level().is_err());
    assert!(TransitionLimit::cluster(0).into_low_level().is_err());
}

#[test]
fn config_builder_has_explicit_values() {
    let config = ClusterConfig::new("cache")
        .etcd_endpoints(vec![String::from("http://one:2379"), String::from("http://two:2379")])
        .namespace("/example/cache");
    assert_eq!(config.cluster(), "cache");
    assert_eq!(config.endpoints().len(), 2);
    assert_eq!(config.namespace_value(), "/example/cache");
    assert!(config.clone().validate().is_ok());
    assert_eq!(ClusterSpec::new(), ClusterSpec::default());
}

fn environment() -> Environment {
    Environment {
        cluster: None,
        endpoints: None,
        namespace: None,
        username: None,
        password: None,
        ca_certificate: None,
        client_certificate: None,
        client_key: None,
        tls_domain_name: None,
    }
}

#[test]
fn loads_configuration_from_environment() {
    let config = ClusterConfig::from_env(Environment {
        cluster: Some(String::from("from-env")),
        endpoints: Some(String::from(" http://one ,http://two ")),
        namespace: Some(String::from("/custom/namespace")),
        ..environment()
    })
    .unwrap_or_else(|_| panic!("environment configuration is valid"));
    assert_eq!(config.cluster(), "from-env");
    assert_eq!(*config.endpoints(), ["http://one", "http://two"]);
    assert_eq!(config.namespace_value(), "/custom/namespace");
}

#[test]
fn environment_configuration_uses_defaults_and_rejects_invalid_values() {
    let defaults =
        ClusterConfig::from_env(environment()).unwrap_or_else(|_| panic!("defaults are valid"));
    assert_eq!(defaults.cluster(), "default");
    assert_eq!(*defaults.endpoints(), ["http://127.0.0.1:2379".to_owned()]);
    assert_eq!(defaults.namespace_value(), "/clustodian/default");

    assert!(ClusterConfig::from_env(Environment {
        endpoints: Some(String::from("http://one,,http://two")),
        ..environment()
    })
    .is_err());
    assert!(config("cluster", &["http://etcd"], "bad\0namespace").validate().is_err());
    assert!(config("bad\0cluster", &["http://etcd"], "/namespace").validate().is_err());
}

#[test]
fn environment_credentials_come_in_pairs() {
    assert!(ClusterConfig::from_env(Environment {
        username: Some(String::from("admin")),
        ..environment()
    })
    .is_err());
    let secured = ClusterConfig::from_env(Environment {
        username: Some(String::from("admin")),
        password: Some(String::from("secret")),
        ca_certificate: Some(Ok(b"pem".to_vec())),
        ..environment()
    })
    .unwrap_or_else(|_| panic!("credentials are complete"));
    assert_eq!(secured.connection_options().username(), Some("admin"));
    assert!(secured.connection_options().tls_enabled());
    assert!(ClusterConfig::from_env(Environment {
        ca_certificate: Some(Err(String::from("no such file"))),
        ..environment()
    })
    .is_err());
}

fn message(result: Result<(), ApplicationError>) -> Option<String> {
    result.err().map(|error| error.to_string())
}

#[test]
fn cluster_spec_rejects_duplicate_declarations() {
    let spec = ClusterSpec::new()
        .instances(vec![InstanceSpec::new("node-a"), InstanceSpec::new("node-a")])
        .resource(ResourceSpec::leader_standby("cache").partitions(1).replicas(1));
    assert!(spec.validate().is_err());
    assert_eq!(
        message(spec.validate()).as_deref(),
        Some("instance node-a is declared more than once")
    );

    let duplicate_replica = ClusterSpec::new().resource(
        ResourceSpec::leader_standby("cache")
            .partitions(1)
            .replicas(2)
            .placement(Placement::semi_auto(lists(&[("cache_0", &["node-a", "node-a"])]))),
    );
    assert!(duplicate_replica.validate().is_err());
    assert_eq!(
        message(duplicate_replica.validate()).as_deref(),
        Some("resource cache: semi-auto preference lists must not contain duplicate instances")
    );
}

#[test]
fn cluster_spec_validates_instance_and_resource_shapes() {
    let invalid_instances = [
        ClusterSpec::new().instances(vec![InstanceSpec {
            instance_id: String::new(),
            zone: String::from("zone-a"),
        }]),
        ClusterSpec::new().instances(vec![InstanceSpec {
            instance_id: String::from("node-a"),
            zone: String::new(),
        }]),
        ClusterSpec::new().instances(vec![InstanceSpec {
            instance_id: String::from("node-a"),
            zone: String::from("bad\0zone"),
        }]),
    ];
    for spec in invalid_instances {
        assert!(spec.validate().is_err());
    }

    for resource in [
        ResourceSpec::leader_standby("documents"),
        ResourceSpec::leader_standby("documents").partitions(1),
        ResourceSpec::leader_standby("documents").replicas(1),
    ] {
        assert!(ClusterSpec::new().resource(resource).validate().is_err());
    }
    assert!(ClusterSpec::new()
        .resource(ResourceSpec::leader_standby("documents").partitions(1).replicas(1))
        .resource(ResourceSpec::leader_standby("documents").partitions(1).replicas(1))
        .validate()
        .is_err());
    assert!(ClusterSpec::new()
        .resource(
            ResourceSpec::leader_standby("documents")
                .partitions(2)
                .replicas(1)
                .placement(Placement::semi_auto(lists(&[("p0", &["node-a"])])))
        )
        .validate()
        .is_err());
    assert!(ClusterSpec::new()
        .resource(
            ResourceSpec::leader_standby("documents")
                .partitions(1)
                .replicas(2)
                .placement(Placement::semi_auto(lists(&[("p0", &["node-a"])])))
        )
        .validate()
        .is_err());
    assert!(ClusterSpec::new()
        .instances(vec![InstanceSpec::new("node-a")])
        .resource(
            ResourceSpec::leader_standby("documents")
                .partitions(1)
                .replicas(1)
                .placement(Placement::semi_auto(lists(&[("documents_0", &["node-a"])])))
        )
        .validate()
        .is_ok());
}

#[test]
fn topology_builder_converts_to_application_placement() {
    let resource = ResourceSpec::leader_standby("database")
        .partitions(1)
        .replicas(2)
        .placement(Placement::crush().topology(Topology::zones()));
    assert!(matches!(resource.placement, Placement::CrushWithTopology(_)));
}

#[test]
fn valid_specifications_can_be_configured() {
    let spec = ClusterSpec::new()
        .instances(vec![InstanceSpec::new("node-a"), InstanceSpec::new("node-b").zone("east")])
        .resource(ResourceSpec::leader_standby("cache").partitions(2).replicas(2));
    assert!(spec.validate().is_ok());
    let (instances, resources) = spec.into_parts();
    for instance in instances {
        assert!(InstanceUpdate::put_instance(&instance.into_low_level()).is_ok());
    }
    for resource in resources {
        let record = put_resource(resource.into_low_level()).unwrap();
        assert_eq!(record.placement.kind, "CRUSH");
        assert_eq!(record.placement.partitions, ["cache_0", "cache_1"]);
    }
}

#[test]
fn handlers_are_registered_once_for_each_resource() {
    let names = |items: &[&str]| items.iter().map(|item| (*item).to_owned()).collect::<Vec<_>>();
    let handled = |items: &[&str]| {
        handled_resources(&names(items)).map_err(|error| error.to_string())
    };
    assert_eq!(
        handled(&["a", "b"]),
        Ok(vec![ResourceId::new("a").unwrap(), ResourceId::new("b").unwrap()])
    );
    assert_eq!(
        handled(&["a", "a"]),
        Err(String::from("participant resource handler declared more than once"))
    );
    assert_eq!(handled(&["a", ""]), Err(String::from("resource identifier must not be empty")));
}

fn record(name: &str, zone: &str) -> InstanceConfigRecord {
    InstanceConfigRecord { name: name.to_owned(), zone: zone.to_owned() }
}

#[test]
fn instances_are_replaced_under_their_name() {
    let spec = InstanceSpec::new("node-a").zone("west").into_low_level();
    let (mut update, action) = InstanceUpdate::put_instance(&spec)
        .unwrap_or_else(|error| panic!("{}", error.to_string()));
    assert!(matches!(action, InstancesAction::Read));
    let stored = Decoded::Value(vec![record("node-a", "east"), record("node-b", "east")]);
    let action = update.on_read(Some(Revision::new(4).unwrap()), &stored);
    let InstancesAction::Put(Some(revision), records) = action else {
        panic!("a write is expected");
    };
    assert_eq!(revision.value(), 4);
    assert!(records.contains(&record("node-a", "west")));
    assert!(records.contains(&record("node-b", "east")));
    assert_eq!(records.len(), 2);
    assert!(matches!(update.on_stored(false), InstancesAction::Read));
    assert!(matches!(update.on_stored(true), InstancesAction::Finish(Ok(()))));
}

#[test]
fn live_instances_are_not_removed() {
    let (mut removal, action) = InstanceRemoval::remove_instance("node-a")
        .unwrap_or_else(|error| panic!("{}", error.to_string()));
    assert!(matches!(action, InstancesAction::Read));
    let stored = Decoded::Value(vec![record("node-a", "east"), record("node-b", "east")]);
    assert!(matches!(
        removal.on_read(Some(Revision::new(4).unwrap()), &stored),
        InstancesAction::PutIfAbsent(_, records) if records == vec![record("node-b", "east")]
    ));
    assert!(matches!(removal.on_stored(false), InstancesAction::AskLive));
    assert!(matches!(
        removal.on_live(Some(SessionId::from_wire_value(1))),
        InstancesAction::Finish(Err(CoordinationError::InstanceStillLive(name)))
            if name == InstanceId::new("node-a").unwrap()
    ));
}

#[test]
fn administrators_work_on_one_cluster() {
    assert!(ensure_cluster("test", "test").is_ok());
    assert!(matches!(ensure_cluster("test", "other"), Err(CoordinationError::InvalidCluster)));
    assert!(cluster_identity_result(true, None, "test").is_ok());
    assert!(cluster_identity_result(false, Some("test"), "test").is_ok());
    assert!(cluster_identity_result(false, Some("other"), "test").is_err());
}

#[test]
fn resources_are_written_only_where_they_differ() {
    assert!(!needs_write(Some("same"), "same"));
    assert!(needs_write(Some("other"), "same"));
    assert!(needs_write(None, "same"));
    assert!(matches!(
        remove_resource("documents"),
        Err(CoordinationError::ResourceDeletionDisabled)
    ));
    assert!(matches!(remove_resource(""), Err(CoordinationError::InvalidKey)));
}

#[test]
fn limits_are_positive_and_known() {
    let throttle = |scope: &str, rebalance_type: &str, max_in_flight: usize| ThrottleSpec {
        scope: scope.to_owned(),
        rebalance_type: rebalance_type.to_owned(),
        max_in_flight,
    };
    assert!(put_throttles(&vec![throttle("CLUSTER", "ANY", 1)]).is_ok());
    assert!(put_throttles(&vec![throttle("", "ANY", 1)]).is_err());
    let limit = |max_in_flight: usize| TransitionLimitSpec {
        target: TransitionLimitTarget::Cluster,
        rebalance_type: TransitionRebalanceType::Any,
        max_in_flight,
    };
    assert_eq!(put_transition_limits(&vec![limit(2)]).unwrap().len(), 1);
    assert!(put_transition_limits(&vec![limit(0)]).is_err());
}

#[test]
fn specifications_are_applied_instance_by_instance_and_resource_by_resource() {
    let spec = ClusterSpec::new()
        .instances(vec![InstanceSpec::new("node-a"), InstanceSpec::new("node-b").zone("zone-b")])
        .resource(ResourceSpec::leader_standby("documents").partitions(2).replicas(2));
    let (mut application, action) = SpecApplication::apply(spec);
    assert!(matches!(action, ApplyAction::EnsureCluster));
    match application.on_done(Ok(())) {
        ApplyAction::PutInstance(instance) => assert_eq!(instance.instance_id, "node-a"),
        _ => panic!("the first instance is put"),
    }
    match application.on_done(Ok(())) {
        ApplyAction::PutInstance(instance) => {
            assert_eq!(instance.instance_id, "node-b");
            assert_eq!(instance.zone, "zone-b");
        }
        _ => panic!("the second instance is put"),
    }
    match application.on_done(Ok(())) {
        ApplyAction::PutResource(resource) => {
            assert_eq!(resource.name, "documents");
            assert_eq!(resource.partitions, 2);
        }
        _ => panic!("the resource is put"),
    }
    assert!(matches!(application.on_done(Ok(())), ApplyAction::Finish(Ok(()))));
}

#[test]
fn failed_applications_stop_at_the_first_error() {
    let spec = ClusterSpec::new().resource(ResourceSpec::leader_standby(""));
    let (_, action) = SpecApplication::apply(spec);
    assert!(matches!(action, ApplyAction::Finish(Err(ApplicationError::Spec(_)))));

    let spec = ClusterSpec::new().instances(vec![InstanceSpec::new("node-a")]);
    let (mut application, _) = SpecApplication::apply(spec);
    assert!(matches!(
        application.on_done(Err(CoordinationError::InvalidCluster)),
        ApplyAction::Finish(Err(ApplicationError::Coordination(
            CoordinationError::InvalidCluster
        )))
    ));
}

#[test]
fn limits_are_converted_together() {
    let limits =
        set_transition_limits(vec![TransitionLimit::cluster(3), TransitionLimit::instance("a", 1)])
            .unwrap();
    assert_eq!(limits.len(), 2);
    assert_eq!(limits[0].max_in_flight, 3);
    assert!(matches!(&limits[1].target, TransitionLimitTarget::Instance(id) if id.as_str() == "a"));
    assert!(set_transition_limits(vec![
        TransitionLimit::cluster(3),
        TransitionLimit::resource("", 1)
    ])
    .is_err());
}

#[test]
fn signals_outrank_callbacks_and_callbacks_outrank_results() {
    let failed = || Err(ApplicationError::Spec(String::from("spec")));
    assert!(matches!(
        run_outcome(Some(String::from("signal")), Some(String::from("callback")), failed()),
        Err(ApplicationError::Signal(message)) if message == "signal"
    ));
    assert!(matches!(
        run_outcome(None, Some(String::from("callback")), Ok(())),
        Err(ApplicationError::Callback(message)) if message == "callback"
    ));
    assert!(matches!(run_outcome(None, None, failed()), Err(ApplicationError::Spec(_))));
    assert!(run_outcome(None, None, Ok(())).is_ok());
}

fn put_into(
    stored: Vec<InstanceConfigRecord>,
    name: &str,
    zone: &str,
) -> (Vec<InstanceConfigRecord>, bool) {
    let spec = InstanceSpec::new(name).zone(zone).into_low_level();
    let (update, _) = InstanceUpdate::put_instance(&spec)
        .unwrap_or_else(|error| panic!("{}", error.to_string()));
    let decoded = Decoded::Value(stored);
    match update.on_read(Some(Revision::new(4).unwrap()), &decoded) {
        InstancesAction::Put(_, records) => (records, true),
        InstancesAction::Finish(Ok(())) => match decoded {
            Decoded::Value(records) => (records, false),
            _ => panic!("the records were given"),
        },
        _ => panic!("records are put or left alone"),
    }
}

#[test]
fn instances_that_are_put_again_are_left_alone() {
    let start = vec![
        record("node-c", "west"),
        record("node-b", "east"),
        record("node-b", "north"),
        record("other", "south"),
    ];
    let declared = [("node-b", "west"), ("node-a", "east"), ("node-c", "west")];
    let mut stored = start;
    let mut written = Vec::new();
    for (name, zone) in declared {
        let (records, wrote) = put_into(stored, name, zone);
        stored = records;
        written.push(wrote);
    }
    // The last instance had its only record already.
    assert_eq!(written, [true, true, false]);
    assert_eq!(
        stored,
        vec![
            record("node-a", "east"),
            record("node-b", "west"),
            record("node-c", "west"),
            record("other", "south"),
        ]
    );
    for (name, zone) in declared {
        let (records, wrote) = put_into(stored, name, zone);
        assert!(!wrote);
        stored = records;
    }
    // Records in another order are left alone too.
    let reversed = vec![record("node-b", "east"), record("node-a", "east")];
    let (kept, wrote) = put_into(reversed, "node-a", "east");
    assert!(!wrote);
    assert_eq!(kept, vec![record("node-b", "east"), record("node-a", "east")]);
    assert!(put_into(kept, "node-a", "west").1);
}
