//! Subscription creation, its locator parsing, and content-type validation.

use workflow_core::discovery::{Component, Handler, InputPayload, OutputPayload};
use workflow_core::schema::{
    ComponentType, DeploymentMetadata, EventReceiverComponentType, InputContentType,
    InputValidationRule, OutputContentTypeRule, ProtocolType, ResourceUri, Sink, Source,
    Subscription,
};
use workflow_core::schema_errors::{ComponentError, Overridden, SchemaError, SubscriptionError};
use workflow_core::updater::{DiscoveredHandlerMetadata, SchemaUpdater, SubscriptionValidator};

struct AcceptAll;

impl SubscriptionValidator for AcceptAll {
    fn validate(&self, subscription: Subscription) -> Result<Subscription, String> {
        Ok(subscription)
    }
}

struct RejectAll;

impl SubscriptionValidator for RejectAll {
    fn validate(&self, _subscription: Subscription) -> Result<Subscription, String> {
        Err("rejected by policy".to_string())
    }
}

fn mock_metadata(address: &str) -> DeploymentMetadata {
    DeploymentMetadata {
        address: address.to_string(),
        protocol_type: ProtocolType::BidiStream,
    }
}

fn greeter_service() -> Component {
    Component {
        component_type: ComponentType::Service,
        fully_qualified_component_name: "greeter.Greeter".to_string(),
        handlers: vec![Handler {
            name: "greet".to_string(),
            handler_type: None,
            input: None,
            output: None,
        }],
    }
}

fn uri(scheme: &str, authority: Option<&str>, path: &str) -> ResourceUri {
    ResourceUri {
        scheme: scheme.to_string(),
        authority: authority.map(|a| a.to_string()),
        path: path.to_string(),
    }
}

fn updater_with_greeter() -> SchemaUpdater {
    let mut updater = SchemaUpdater::default();
    updater
        .add_deployment(Some(1), mock_metadata("http://localhost:9080"), vec![greeter_service()], false)
        .unwrap();
    updater
}

#[test]
fn add_subscription_parses_source_and_sink() {
    let mut updater = updater_with_greeter();
    let id = updater
        .add_subscription(
            Some(5),
            uri("kafka", Some("my-cluster"), "/my-topic"),
            uri("component", Some("greeter.Greeter"), "/greet"),
            None,
            &AcceptAll,
        )
        .unwrap();
    assert_eq!(id, 5);

    let schemas = updater.into_inner();
    let subscription = schemas.subscriptions.get(5).unwrap();
    match &subscription.source {
        Source::Kafka { cluster, topic, .. } => {
            assert_eq!(cluster, &"my-cluster".to_string());
            assert_eq!(topic, &"my-topic".to_string());
        }
    }
    match &subscription.sink {
        Sink::Component { name, handler, ty } => {
            assert_eq!(name, &"greeter.Greeter".to_string());
            assert_eq!(handler, &"greet".to_string());
            assert_eq!(*ty, EventReceiverComponentType::Service);
        }
    }
}

#[test]
fn add_then_remove_subscription_round_trip() {
    let mut updater = updater_with_greeter();
    let schemas = updater.into_inner();
    let version_before = schemas.version();

    let mut updater = SchemaUpdater::from(schemas);
    updater
        .add_subscription(
            Some(5),
            uri("kafka", Some("my-cluster"), "/my-topic"),
            uri("component", Some("greeter.Greeter"), "/greet"),
            None,
            &AcceptAll,
        )
        .unwrap();
    updater.remove_subscription(5);
    let schemas = updater.into_inner();

    // Equivalent catalog, except for the version counter.
    assert!(schemas.subscriptions.get(5).is_none());
    assert!(schemas
        .resolve_latest_component(&"greeter.Greeter".to_string())
        .is_some());
    assert_eq!(schemas.version(), version_before + 1);
}

#[test]
fn remove_missing_subscription_keeps_version() {
    let updater_schemas = updater_with_greeter().into_inner();
    let version_before = updater_schemas.version();
    let mut updater = SchemaUpdater::from(updater_schemas);
    updater.remove_subscription(42);
    let schemas = updater.into_inner();
    assert_eq!(schemas.version(), version_before);
}

#[test]
fn subscription_error_cases() {
    let mut updater = updater_with_greeter();

    let err = updater
        .add_subscription(
            Some(5),
            uri("http", Some("my-cluster"), "/my-topic"),
            uri("component", Some("greeter.Greeter"), "/greet"),
            None,
            &AcceptAll,
        )
        .unwrap_err();
    assert!(matches!(err, SchemaError::Subscription(SubscriptionError::InvalidSourceScheme(_))));

    let err = updater
        .add_subscription(
            Some(5),
            uri("kafka", None, "/my-topic"),
            uri("component", Some("greeter.Greeter"), "/greet"),
            None,
            &AcceptAll,
        )
        .unwrap_err();
    assert!(matches!(
        err,
        SchemaError::Subscription(SubscriptionError::InvalidKafkaSourceAuthority(_))
    ));

    let err = updater
        .add_subscription(
            Some(5),
            uri("kafka", Some("my-cluster"), "/my-topic"),
            uri("service", Some("greeter.Greeter"), "/greet"),
            None,
            &AcceptAll,
        )
        .unwrap_err();
    assert!(matches!(err, SchemaError::Subscription(SubscriptionError::InvalidSinkScheme(_))));

    let err = updater
        .add_subscription(
            Some(5),
            uri("kafka", Some("my-cluster"), "/my-topic"),
            uri("component", None, "/greet"),
            None,
            &AcceptAll,
        )
        .unwrap_err();
    assert!(matches!(
        err,
        SchemaError::Subscription(SubscriptionError::InvalidComponentSinkAuthority(_))
    ));

    let err = updater
        .add_subscription(
            Some(5),
            uri("kafka", Some("my-cluster"), "/my-topic"),
            uri("component", Some("greeter.Unknown"), "/greet"),
            None,
            &AcceptAll,
        )
        .unwrap_err();
    assert!(matches!(err, SchemaError::Subscription(SubscriptionError::SinkComponentNotFound(_))));

    let err = updater
        .add_subscription(
            Some(5),
            uri("kafka", Some("my-cluster"), "/my-topic"),
            uri("component", Some("greeter.Greeter"), "/unknownHandler"),
            None,
            &AcceptAll,
        )
        .unwrap_err();
    assert!(matches!(err, SchemaError::Subscription(SubscriptionError::SinkComponentNotFound(_))));

    let err = updater
        .add_subscription(
            Some(5),
            uri("kafka", Some("my-cluster"), "/my-topic"),
            uri("component", Some("greeter.Greeter"), "/greet"),
            None,
            &RejectAll,
        )
        .unwrap_err();
    match err {
        SchemaError::Subscription(SubscriptionError::Validation(message)) => {
            assert_eq!(message, "rejected by policy".to_string());
        }
        other => panic!("unexpected rejection {other:?}"),
    }

    // Nothing committed: the identifier is still free.
    updater
        .add_subscription(
            Some(5),
            uri("kafka", Some("my-cluster"), "/my-topic"),
            uri("component", Some("greeter.Greeter"), "/greet"),
            None,
            &AcceptAll,
        )
        .unwrap();
    let err = updater
        .add_subscription(
            Some(5),
            uri("kafka", Some("my-cluster"), "/my-topic"),
            uri("component", Some("greeter.Greeter"), "/greet"),
            None,
            &AcceptAll,
        )
        .unwrap_err();
    assert!(matches!(err, SchemaError::Override(Overridden::Subscription(5))));
}

#[test]
fn input_content_type_grammar() {
    let payload = |ct: &str| InputPayload {
        required: Some(true),
        content_type: Some(ct.to_string()),
        has_json_schema: false,
    };

    let rules = DiscoveredHandlerMetadata::input_rules_from_schema(
        &"greet".to_string(),
        &payload("application/json"),
    )
    .unwrap();
    assert_eq!(rules.input_validation_rules.len(), 1);
    match &rules.input_validation_rules[0] {
        InputValidationRule::ContentType { content_type } => match content_type {
            InputContentType::MimeTypeAndSubtype(t, s) => {
                assert_eq!(t, &"application".to_string());
                assert_eq!(s, &"json".to_string());
            }
            other => panic!("unexpected content type {other:?}"),
        },
        other => panic!("unexpected rule {other:?}"),
    }

    let rules = DiscoveredHandlerMetadata::input_rules_from_schema(
        &"greet".to_string(),
        &payload("*/*"),
    )
    .unwrap();
    assert!(matches!(
        rules.input_validation_rules[0],
        InputValidationRule::ContentType { content_type: InputContentType::Any }
    ));

    let rules = DiscoveredHandlerMetadata::input_rules_from_schema(
        &"greet".to_string(),
        &payload("image/*"),
    )
    .unwrap();
    match &rules.input_validation_rules[0] {
        InputValidationRule::ContentType { content_type: InputContentType::MimeType(t) } => {
            assert_eq!(t, &"image".to_string());
        }
        other => panic!("unexpected rule {other:?}"),
    }

    for bad in ["nojson", "a/b/c", "/json", "application/", "*/json", ""] {
        let err = DiscoveredHandlerMetadata::input_rules_from_schema(
            &"greet".to_string(),
            &payload(bad),
        )
        .unwrap_err();
        match err {
            ComponentError::BadInputContentType(handler_name, ct) => {
                assert_eq!(handler_name, "greet".to_string());
                assert_eq!(ct, bad.to_string());
            }
            other => panic!("unexpected rejection {other:?}"),
        }
    }

    // An optional input without a content type accepts an empty body or
    // anything at all.
    let rules = DiscoveredHandlerMetadata::input_rules_from_schema(
        &"greet".to_string(),
        &InputPayload { required: None, content_type: None, has_json_schema: false },
    )
    .unwrap();
    assert_eq!(rules.input_validation_rules.len(), 2);
    assert!(matches!(
        rules.input_validation_rules[0],
        InputValidationRule::NoBodyAndContentType
    ));
}

#[test]
fn output_content_type_must_be_a_header_value() {
    let ok = DiscoveredHandlerMetadata::output_rules_from_schema(&OutputPayload {
        content_type: Some("application/json".to_string()),
        set_content_type_if_empty: Some(true),
        has_json_schema: true,
    })
    .unwrap();
    match ok.content_type_rule {
        OutputContentTypeRule::SetContentType {
            content_type,
            set_content_type_if_empty,
            has_json_schema,
        } => {
            assert_eq!(content_type, "application/json".to_string());
            assert!(set_content_type_if_empty);
            assert!(has_json_schema);
        }
        other => panic!("unexpected rule {other:?}"),
    }

    let err = DiscoveredHandlerMetadata::output_rules_from_schema(&OutputPayload {
        content_type: Some("bad\nvalue".to_string()),
        set_content_type_if_empty: None,
        has_json_schema: false,
    })
    .unwrap_err();
    match err {
        ComponentError::BadOutputContentType(ct) => assert_eq!(ct, "bad\nvalue".to_string()),
        other => panic!("unexpected rejection {other:?}"),
    }

    let none = DiscoveredHandlerMetadata::output_rules_from_schema(&OutputPayload {
        content_type: None,
        set_content_type_if_empty: None,
        has_json_schema: false,
    })
    .unwrap();
    assert!(matches!(none.content_type_rule, OutputContentTypeRule::NoContentType));
}
