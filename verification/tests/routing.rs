use caphost::bus::{BusError, RoutingConfig, TargetEntity, TargetInterface};

fn link(name: &str) -> TargetEntity {
    TargetEntity::Link(Some(name.to_string()))
}

#[test]
fn identify_by_binding_resolves_configured_pairs() {
    let mut config = RoutingConfig::new();
    config.add_binding("keyvalue".to_string(), "ns:keyvalue".to_string(), link("kv"));
    match config.identify_by_binding(&"keyvalue".to_string(), &"ns:keyvalue".to_string()) {
        Ok(TargetEntity::Link(Some(name))) => assert_eq!(name, "kv"),
        other => panic!("expected Link(kv), got {:?}", other.map(|_| ())),
    }
}

#[test]
fn identify_by_binding_rejects_unknown_pairs() {
    let mut config = RoutingConfig::new();
    config.add_binding("keyvalue".to_string(), "ns:keyvalue".to_string(), link("kv"));
    assert_eq!(
        config
            .identify_by_binding(&"keyvalue".to_string(), &"ns:other".to_string())
            .err(),
        Some(BusError::UnknownTarget)
    );
    assert_eq!(
        config
            .identify_by_binding(&"messaging".to_string(), &"ns:keyvalue".to_string())
            .err(),
        Some(BusError::UnknownTarget)
    );
}

#[test]
fn identify_by_interface_is_optional() {
    let mut config = RoutingConfig::new();
    config.add_interface(TargetInterface::OutboundHttp, link("http"));
    match config.identify_by_interface(&TargetInterface::OutboundHttp) {
        Some(TargetEntity::Link(Some(name))) => assert_eq!(name, "http"),
        other => panic!("expected Link(http), got {:?}", other.map(|_| ())),
    }
    // None is not an error: the caller falls back to its default path.
    assert!(config
        .identify_by_interface(&TargetInterface::KeyValueAtomic)
        .is_none());
}

#[test]
fn set_target_accepts_interface_configured_links() {
    let mut config = RoutingConfig::new();
    config.add_interface(TargetInterface::KeyValueAtomic, link("keyvalue"));
    assert_eq!(
        config.set_target(&link("keyvalue"), &vec![TargetInterface::KeyValueAtomic]),
        Ok(())
    );
}

#[test]
fn set_target_accepts_binding_configured_links() {
    let mut config = RoutingConfig::new();
    config.add_binding("keyvalue".to_string(), "ns:keyvalue".to_string(), link("keyvalue"));
    assert_eq!(
        config.set_target(&link("keyvalue"), &vec![TargetInterface::KeyValueAtomic]),
        Ok(())
    );
    // Both key-value families share the binding name.
    assert_eq!(
        config.set_target(
            &link("keyvalue"),
            &vec![
                TargetInterface::KeyValueAtomic,
                TargetInterface::KeyValueReadWrite,
            ],
        ),
        Ok(())
    );
}

#[test]
fn set_target_rejects_unconfigured_combinations() {
    let mut config = RoutingConfig::new();
    config.add_binding("keyvalue".to_string(), "ns:keyvalue".to_string(), link("keyvalue"));
    // A link the operator never wired.
    assert_eq!(
        config.set_target(&link("other"), &vec![TargetInterface::KeyValueAtomic]),
        Err(BusError::TargetRejected)
    );
    // An interface the link is not configured to serve.
    assert_eq!(
        config.set_target(&link("keyvalue"), &vec![TargetInterface::OutboundHttp]),
        Err(BusError::TargetRejected)
    );
    // One bad interface in a batch rejects the batch.
    assert_eq!(
        config.set_target(
            &link("keyvalue"),
            &vec![
                TargetInterface::KeyValueAtomic,
                TargetInterface::MessagingConsumer,
            ],
        ),
        Err(BusError::TargetRejected)
    );
    // The empty batch is vacuously fine.
    assert_eq!(config.set_target(&link("other"), &vec![]), Ok(()));
}

#[test]
fn custom_interfaces_route_by_namespace() {
    let custom = TargetInterface::Custom {
        namespace: "acme".to_string(),
        package: "billing".to_string(),
        interface: "invoices".to_string(),
    };
    let mut config = RoutingConfig::new();
    config.add_binding("acme".to_string(), "prod".to_string(), link("billing-link"));
    assert_eq!(
        config.set_target(&link("billing-link"), &vec![custom]),
        Ok(())
    );
}
