use sima_pipeline::config::Rented;
use sima_pipeline::fault::Fault;
use sima_pipeline::providers::{
    endpoint_target, provider_for, provider_for_rental, stub_endpoint, stub_offers, transport_mode,
    Backend, ProviderSettings, Reachability, SshEndpoint,
};
use sima_pipeline::reach::{SpawnMode, SshDestination};

#[test]
fn a_provider_this_build_has_no_backend_for_is_rejected() {
    let error = provider_for("no-such-cloud", &ProviderSettings::read_only())
        .err()
        .expect("an id with no backend");
    let Fault::Provider(message) = error else {
        panic!("expected a provider error");
    };
    assert!(message.contains("no-such-cloud"), "{message}");
}

#[test]
fn the_stub_backend_answers_for_its_own_id() {
    let backend = provider_for("stub", &ProviderSettings::read_only()).expect("a backend");
    assert!(matches!(backend, Backend::Stub { .. }));
}

#[test]
fn the_vast_backend_is_given_the_image_and_the_disk() {
    let settings = ProviderSettings {
        image: "localhost/sima:latest",
        disk_gb: 64,
        count: 2,
    };
    assert_eq!(
        provider_for("vastai", &settings),
        Ok(Backend::Vast {
            image: "localhost/sima:latest",
            disk_gb: 64
        })
    );
    let rented = Rented {
        provider: "vastai".to_string(),
        image: "image".to_string(),
        disk_gb: 8,
        ready_timeout_ms: 1,
        ready_poll_ms: 1,
    };
    assert_eq!(
        provider_for_rental(&rented, 3),
        Ok(Backend::Vast {
            image: "image",
            disk_gb: 8
        })
    );
}

#[test]
fn a_read_only_caller_states_no_image_no_disk_and_no_count() {
    assert_eq!(
        ProviderSettings::read_only(),
        ProviderSettings {
            image: "",
            disk_gb: 0,
            count: 0
        }
    );
}

#[test]
fn the_stub_marketplace_is_sized_to_the_requested_count() {
    assert_eq!(stub_offers(0).len(), 1);
    assert_eq!(stub_offers(4).len(), 4);
}

#[test]
fn the_stub_s_machines_are_told_apart_by_name_and_rate() {
    let offers = stub_offers(12);
    for (n, offer) in offers.iter().enumerate() {
        assert_eq!(offer.id, format!("stub-offer-{n}"));
        assert_eq!(offer.machine, format!("stub-machine-{n}"));
        assert_eq!(offer.price, 100_000 + n as u64);
        assert_eq!(offer.gpu_model, "stub-gpu");
        assert_eq!(offer.gpu_count, 1);
        assert_eq!(offer.vram_mb, 24_000);
        assert!(offer.verified);
        assert_eq!(offer.disk_gb, 1_000);
        assert_eq!(offer.bandwidth_mbps, 10_000);
        assert_eq!(offer.location, "");
    }
}

#[test]
fn providers_a_stub_endpoint_reads_as_a_user_a_host_and_a_port() {
    assert_eq!(
        stub_endpoint("tester@127.0.0.1:41022"),
        Ok(SshEndpoint {
            host: "127.0.0.1".to_string(),
            port: 41022,
            user: "tester".to_string(),
        })
    );
    assert_eq!(
        stub_endpoint("root@[::1]:22").expect("an endpoint").host,
        "[::1]"
    );
}

#[test]
fn rental_a_stub_endpoint_reads_as_a_user_a_host_and_a_port() {
    let endpoint = stub_endpoint("tester@127.0.0.1:41022").expect("an endpoint");
    assert_eq!(endpoint.user, "tester");
    assert_eq!(endpoint.host, "127.0.0.1");
    assert_eq!(endpoint.port, 41022);
    assert_eq!(
        stub_endpoint("root@[::1]:22").expect("an endpoint").host,
        "[::1]"
    );
}

const MALFORMED: [&str; 7] = [
    "127.0.0.1:41022",
    "tester@127.0.0.1",
    "tester@127.0.0.1:0",
    "tester@127.0.0.1:not-a-port",
    "@127.0.0.1:22",
    "tester@:22",
    "",
];

#[test]
fn providers_a_malformed_stub_endpoint_names_the_variable_and_falls_back_to_nothing() {
    for value in MALFORMED {
        match stub_endpoint(value) {
            Err(Fault::Validation(message)) => assert!(
                message.contains("SIMA_STUB_SSH") && message.contains(value),
                "names the variable and the value: {message}"
            ),
            other => panic!("expected {value:?} to be refused, got {other:?}"),
        }
    }
}

#[test]
fn rental_a_malformed_stub_endpoint_names_the_variable_and_falls_back_to_nothing() {
    for value in MALFORMED {
        assert_eq!(
            stub_endpoint(value),
            Err(Fault::Validation(format!(
                "SIMA_STUB_SSH is {value:?}, which is not a user@host:port endpoint"
            )))
        );
    }
    assert!(stub_endpoint("tester@h:65536").is_err());
}

#[test]
fn an_endpoint_reads_back_from_its_text() {
    for (user, host, port) in [("root", "203.0.113.7", 41022), ("a", "b@c:d", 65535)] {
        assert_eq!(
            stub_endpoint(&format!("{user}@{host}:{port}")),
            Ok(SshEndpoint {
                host: host.to_string(),
                port,
                user: user.to_string(),
            })
        );
    }
}

#[test]
fn acquire_each_reachability_routes_onto_its_spawn_mode() {
    let worker: Result<String, Fault> = Ok("/build/sima-worker".to_string());
    assert_eq!(
        transport_mode(Reachability::Ssh, worker.clone()),
        Ok(SpawnMode::Ssh)
    );
    assert_eq!(
        transport_mode(Reachability::Local, worker),
        Ok(SpawnMode::Local("/build/sima-worker".to_string()))
    );
}

#[test]
fn rental_each_reachability_routes_onto_its_spawn_mode() {
    let missing: Result<String, Fault> = Err(Fault::Validation("not found".to_string()));
    assert_eq!(
        transport_mode(Reachability::Ssh, missing.clone()),
        Ok(SpawnMode::Ssh)
    );
    assert_eq!(
        transport_mode(Reachability::Local, missing),
        Err(Fault::Validation("not found".to_string()))
    );
}

#[test]
fn an_endpoint_is_a_rented_destination() {
    let endpoint = stub_endpoint("tester@127.0.0.1:41022").expect("an endpoint");
    assert_eq!(
        endpoint_target(endpoint),
        SshDestination::rented("127.0.0.1", 41022, "tester")
    );
}

#[test]
fn acquire_the_stub_provider_lists_an_offer_per_requested_machine() {
    let rented = Rented {
        provider: "stub".to_string(),
        image: "image".to_string(),
        disk_gb: 8,
        ready_timeout_ms: 1,
        ready_poll_ms: 1,
    };
    let Ok(Backend::Stub { offers }) = provider_for_rental(&rented, 3) else {
        panic!("the stub answers for its own id");
    };
    assert_eq!(offers.len(), 3);
}

#[test]
fn rental_the_stub_provider_lists_an_offer_per_requested_machine() {
    assert_eq!(stub_offers(3).len(), 3);
}

/// The machine of an acquired endpoint is reached at the endpoint: by its host,
/// and over its port and as its user.
fn a_ready_machine_is_reached_at_its_endpoint() {
    let endpoint = stub_endpoint("root@203.0.113.7:41022").expect("an endpoint");
    let target = endpoint_target(endpoint.clone());
    assert_eq!(target.host(), endpoint.host);
    assert_eq!(target.host(), "203.0.113.7");
    assert_eq!(
        target.prefix(),
        SshDestination::rented(&endpoint.host, endpoint.port, &endpoint.user).prefix()
    );
    let prefix = target.prefix();
    assert_eq!(prefix[prefix.len() - 4..], ["-p", "41022", "root@203.0.113.7", "--"]);
}

#[test]
fn acquire_the_stub_provider_acquires_a_machine_that_reaches_ready() {
    let rented = Rented {
        provider: "stub".to_string(),
        image: "image".to_string(),
        disk_gb: 8,
        ready_timeout_ms: 1,
        ready_poll_ms: 1,
    };
    let Ok(Backend::Stub { offers }) = provider_for_rental(&rented, 1) else {
        panic!("the stub answers for its own id");
    };
    assert!(!offers.is_empty(), "an offer");
    a_ready_machine_is_reached_at_its_endpoint();
}

#[test]
fn rental_the_stub_provider_acquires_a_machine_that_reaches_ready() {
    assert!(!stub_offers(1).is_empty(), "an offer");
    a_ready_machine_is_reached_at_its_endpoint();
}
