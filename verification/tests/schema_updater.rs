//! Deployment registration and removal against the schema catalog.

use workflow_core::discovery::{Component, Handler};
use workflow_core::schema::{
    ComponentType, DeploymentMetadata, HandlerType, ProtocolType, SchemaInformation,
};
use workflow_core::schema_errors::{ComponentError, DeploymentError, Overridden, SchemaError};
use workflow_core::updater::SchemaUpdater;

const GREETER_SERVICE_NAME: &str = "greeter.Greeter";
const ANOTHER_GREETER_SERVICE_NAME: &str = "greeter.AnotherGreeter";

fn mock_metadata(address: &str) -> DeploymentMetadata {
    DeploymentMetadata {
        address: address.to_string(),
        protocol_type: ProtocolType::BidiStream,
    }
}

fn handler(name: &str) -> Handler {
    Handler {
        name: name.to_string(),
        handler_type: None,
        input: None,
        output: None,
    }
}

fn greeter_service() -> Component {
    Component {
        component_type: ComponentType::Service,
        fully_qualified_component_name: GREETER_SERVICE_NAME.to_string(),
        handlers: vec![handler("greet")],
    }
}

fn greeter_virtual_object() -> Component {
    Component {
        component_type: ComponentType::VirtualObject,
        fully_qualified_component_name: GREETER_SERVICE_NAME.to_string(),
        handlers: vec![handler("greet")],
    }
}

fn another_greeter_service() -> Component {
    Component {
        component_type: ComponentType::Service,
        fully_qualified_component_name: ANOTHER_GREETER_SERVICE_NAME.to_string(),
        handlers: vec![handler("another_greeter")],
    }
}

#[test]
fn register_new_deployment() {
    let schema_information = SchemaInformation::default();
    let initial_version = schema_information.version();
    let mut updater = SchemaUpdater::from(schema_information);

    let deployment_id = updater
        .add_deployment(Some(1), mock_metadata("http://localhost:9080"), vec![greeter_service()], false)
        .unwrap();

    // Ensure we are using the pre-determined id
    assert_eq!(1, deployment_id);

    let schema = updater.into_inner();

    assert!(initial_version < schema.version());
    let component = schema
        .resolve_latest_component(&GREETER_SERVICE_NAME.to_string())
        .unwrap();
    assert_eq!(component.revision, 1);
    assert_eq!(component.location.latest_deployment, deployment_id);
    assert!(component.handlers.contains_key(&"greet".to_string()));
}

#[test]
fn register_new_deployment_add_unregistered_service() {
    let mut updater = SchemaUpdater::default();

    // Register first deployment
    updater
        .add_deployment(Some(1), mock_metadata("http://localhost:9080"), vec![greeter_service()], false)
        .unwrap();

    let schemas = updater.into_inner();

    assert_eq!(
        schemas
            .resolve_latest_component(&GREETER_SERVICE_NAME.to_string())
            .unwrap()
            .location
            .latest_deployment,
        1
    );
    assert!(schemas
        .resolve_latest_component(&ANOTHER_GREETER_SERVICE_NAME.to_string())
        .is_none());

    let mut updater: SchemaUpdater = schemas.into();
    updater
        .add_deployment(
            Some(2),
            mock_metadata("http://localhost:9081"),
            vec![greeter_service(), another_greeter_service()],
            false,
        )
        .unwrap();
    let schemas = updater.into_inner();

    let greeter = schemas
        .resolve_latest_component(&GREETER_SERVICE_NAME.to_string())
        .unwrap();
    assert_eq!(greeter.location.latest_deployment, 2);
    assert_eq!(greeter.revision, 2);
    let another = schemas
        .resolve_latest_component(&ANOTHER_GREETER_SERVICE_NAME.to_string())
        .unwrap();
    assert_eq!(another.location.latest_deployment, 2);
    assert_eq!(another.revision, 1);
}

#[test]
fn force_deploy_private_service() -> Result<(), SchemaError> {
    let mut updater = SchemaUpdater::default();

    updater.add_deployment(Some(1), mock_metadata("http://localhost:9080"), vec![greeter_service()], false)?;

    let schemas = updater.into_inner();

    assert!(schemas
        .resolve_latest_component(&GREETER_SERVICE_NAME.to_string())
        .unwrap()
        .location
        .public);

    let version_before_modification = schemas.version();
    let mut updater = SchemaUpdater::from(schemas);
    updater.modify_component(GREETER_SERVICE_NAME.to_string(), false);
    let schemas = updater.into_inner();

    assert!(version_before_modification < schemas.version());
    assert!(!schemas
        .resolve_latest_component(&GREETER_SERVICE_NAME.to_string())
        .unwrap()
        .location
        .public);

    let mut updater = SchemaUpdater::from(schemas);
    updater.add_deployment(Some(1), mock_metadata("http://localhost:9080"), vec![greeter_service()], true)?;

    let schemas = updater.into_inner();
    assert!(!schemas
        .resolve_latest_component(&GREETER_SERVICE_NAME.to_string())
        .unwrap()
        .location
        .public);

    Ok(())
}

#[test]
fn register_new_deployment_fails_changing_instance_type() {
    let mut updater = SchemaUpdater::default();

    updater
        .add_deployment(Some(1), mock_metadata("http://localhost:9080"), vec![greeter_service()], false)
        .unwrap();
    let schemas = updater.into_inner();

    assert_eq!(
        schemas
            .resolve_latest_component(&GREETER_SERVICE_NAME.to_string())
            .unwrap()
            .location
            .latest_deployment,
        1
    );

    let compute_result = SchemaUpdater::from(schemas).add_deployment(
        Some(2),
        mock_metadata("http://localhost:9081"),
        vec![greeter_virtual_object()],
        false,
    );

    assert!(matches!(
        compute_result.unwrap_err(),
        SchemaError::Component(ComponentError::DifferentType(_))
    ));
}

#[test]
fn override_existing_deployment_removing_a_service() {
    let mut updater = SchemaUpdater::default();

    updater
        .add_deployment(
            Some(1),
            mock_metadata("http://localhost:9080"),
            vec![greeter_service(), another_greeter_service()],
            false,
        )
        .unwrap();

    let schemas = updater.into_inner();
    assert_eq!(
        schemas
            .resolve_latest_component(&GREETER_SERVICE_NAME.to_string())
            .unwrap()
            .location
            .latest_deployment,
        1
    );
    assert_eq!(
        schemas
            .resolve_latest_component(&ANOTHER_GREETER_SERVICE_NAME.to_string())
            .unwrap()
            .location
            .latest_deployment,
        1
    );

    let mut updater = SchemaUpdater::from(schemas);
    updater
        .add_deployment(Some(1), mock_metadata("http://localhost:9080"), vec![greeter_service()], true)
        .unwrap();

    let schemas = updater.into_inner();

    assert_eq!(
        schemas
            .resolve_latest_component(&GREETER_SERVICE_NAME.to_string())
            .unwrap()
            .location
            .latest_deployment,
        1
    );
    assert!(schemas
        .resolve_latest_component(&ANOTHER_GREETER_SERVICE_NAME.to_string())
        .is_none());
}

#[test]
fn cannot_override_existing_deployment_endpoint_conflict() {
    let mut updater = SchemaUpdater::default();

    updater
        .add_deployment(Some(1), mock_metadata("http://localhost:9080"), vec![greeter_service()], false)
        .unwrap();

    assert!(matches!(
        updater
            .add_deployment(Some(1), mock_metadata("http://localhost:9080"), vec![greeter_service()], false)
            .unwrap_err(),
        SchemaError::Override(Overridden::Deployment(1))
    ));
}

#[test]
fn cannot_override_existing_deployment_existing_id_mismatch() {
    let mut updater = SchemaUpdater::default();

    updater
        .add_deployment(Some(1), mock_metadata("http://localhost:9080"), vec![greeter_service()], false)
        .unwrap();

    let new_id = 9;

    let rejection = updater
        .add_deployment(Some(new_id), mock_metadata("http://localhost:9080"), vec![greeter_service()], false)
        .unwrap_err();
    match rejection {
        SchemaError::Deployment(DeploymentError::IncorrectId { requested, existing }) => {
            assert_eq!(new_id, requested);
            assert_eq!(1, existing);
        }
        other => panic!("unexpected rejection {other:?}"),
    }
}

#[test]
fn register_two_deployments_then_remove_first() {
    let mut updater = SchemaUpdater::default();

    updater
        .add_deployment(
            Some(1),
            mock_metadata("http://localhost:9080"),
            vec![greeter_service(), another_greeter_service()],
            false,
        )
        .unwrap();
    updater
        .add_deployment(Some(2), mock_metadata("http://localhost:9081"), vec![greeter_service()], false)
        .unwrap();
    let schemas = updater.into_inner();

    let greeter = schemas
        .resolve_latest_component(&GREETER_SERVICE_NAME.to_string())
        .unwrap();
    assert_eq!(greeter.location.latest_deployment, 2);
    assert_eq!(greeter.revision, 2);
    let another = schemas
        .resolve_latest_component(&ANOTHER_GREETER_SERVICE_NAME.to_string())
        .unwrap();
    assert_eq!(another.location.latest_deployment, 1);
    assert_eq!(another.revision, 1);

    let version_before_removal = schemas.version();
    let mut updater: SchemaUpdater = schemas.into();
    updater.remove_deployment(1);
    let schemas = updater.into_inner();

    let greeter = schemas
        .resolve_latest_component(&GREETER_SERVICE_NAME.to_string())
        .unwrap();
    assert_eq!(greeter.location.latest_deployment, 2);
    assert_eq!(greeter.revision, 2);
    assert!(version_before_removal < schemas.version());
    assert!(schemas
        .resolve_latest_component(&ANOTHER_GREETER_SERVICE_NAME.to_string())
        .is_none());
    assert!(schemas.get_deployment(1).is_none());
}

fn greeter_v1_service() -> Component {
    Component {
        component_type: ComponentType::Service,
        fully_qualified_component_name: GREETER_SERVICE_NAME.to_string(),
        handlers: vec![handler("greet"), handler("doSomething")],
    }
}

fn greeter_v2_service() -> Component {
    Component {
        component_type: ComponentType::Service,
        fully_qualified_component_name: GREETER_SERVICE_NAME.to_string(),
        handlers: vec![handler("greet")],
    }
}

#[test]
fn reject_removing_existing_methods() {
    let mut updater = SchemaUpdater::default();

    updater
        .add_deployment(Some(1), mock_metadata("http://localhost:9080"), vec![greeter_v1_service()], false)
        .unwrap();
    let schemas = updater.into_inner();
    assert_eq!(
        schemas
            .resolve_latest_component(&GREETER_SERVICE_NAME.to_string())
            .unwrap()
            .revision,
        1
    );

    let mut updater: SchemaUpdater = schemas.into();
    let rejection = updater
        .add_deployment(Some(2), mock_metadata("http://localhost:9081"), vec![greeter_v2_service()], false)
        .unwrap_err();

    let schemas = updater.into_inner();
    // unchanged
    assert_eq!(
        schemas
            .resolve_latest_component(&GREETER_SERVICE_NAME.to_string())
            .unwrap()
            .revision,
        1
    );

    match rejection {
        SchemaError::Component(ComponentError::RemovedHandlers(service, missing_methods)) => {
            assert_eq!(service, GREETER_SERVICE_NAME.to_string());
            assert_eq!(missing_methods, vec!["doSomething".to_string()]);
        }
        other => panic!("unexpected rejection {other:?}"),
    }
}

#[test]
fn generated_deployment_id_is_fresh() {
    let mut updater = SchemaUpdater::default();

    updater
        .add_deployment(Some(7), mock_metadata("http://localhost:9080"), vec![greeter_service()], false)
        .unwrap();
    let generated = updater
        .add_deployment(None, mock_metadata("http://localhost:9081"), vec![another_greeter_service()], false)
        .unwrap();

    assert_eq!(generated, 8);
    let schemas = updater.into_inner();
    assert!(schemas.get_deployment(7).is_some());
    assert!(schemas.get_deployment(8).is_some());
}

#[test]
fn reject_empty_component_name() {
    let mut updater = SchemaUpdater::default();
    let component = Component {
        component_type: ComponentType::Service,
        fully_qualified_component_name: String::new(),
        handlers: vec![handler("greet")],
    };
    let rejection = updater
        .add_deployment(Some(1), mock_metadata("http://localhost:9080"), vec![component], false)
        .unwrap_err();
    assert!(matches!(
        rejection,
        SchemaError::Component(ComponentError::InvalidName(_))
    ));
}

#[test]
fn reject_duplicate_component_names() {
    let mut updater = SchemaUpdater::default();
    let rejection = updater
        .add_deployment(
            Some(1),
            mock_metadata("http://localhost:9080"),
            vec![greeter_service(), greeter_virtual_object()],
            false,
        )
        .unwrap_err();
    match rejection {
        SchemaError::Component(ComponentError::DuplicateName(name)) => {
            assert_eq!(name, GREETER_SERVICE_NAME.to_string());
        }
        other => panic!("unexpected rejection {other:?}"),
    }
}

#[test]
fn untouched_session_returns_catalog_unchanged() {
    let mut updater = SchemaUpdater::default();
    updater
        .add_deployment(Some(1), mock_metadata("http://localhost:9080"), vec![greeter_service()], false)
        .unwrap();
    let schemas = updater.into_inner();
    let version = schemas.version();

    let untouched = SchemaUpdater::from(schemas).into_inner();
    assert_eq!(untouched.version(), version);
    assert!(untouched
        .resolve_latest_component(&GREETER_SERVICE_NAME.to_string())
        .is_some());
}

#[test]
fn handler_kind_defaults_follow_component_kind() {
    let mut updater = SchemaUpdater::default();
    updater
        .add_deployment(Some(1), mock_metadata("http://localhost:9080"), vec![greeter_service()], false)
        .unwrap();
    let schemas = updater.into_inner();
    let component = schemas
        .resolve_latest_component(&GREETER_SERVICE_NAME.to_string())
        .unwrap();
    let greet = component.handlers.get(&"greet".to_string()).unwrap();
    assert_eq!(greet.target_meta.handler_ty, HandlerType::Shared);
    assert_eq!(greet.target_meta.component_ty, ComponentType::Service);
    assert!(greet.target_meta.public);
}

#[test]
fn register_deployment_without_components() {
    let mut updater = SchemaUpdater::default();
    let id = updater
        .add_deployment(Some(4), mock_metadata("http://localhost:9080"), vec![], false)
        .unwrap();
    assert_eq!(id, 4);
    let schemas = updater.into_inner();
    assert!(schemas.get_deployment(4).is_some());
    assert_eq!(schemas.version(), 2);
}

#[test]
fn remove_missing_deployment_changes_nothing() {
    let mut updater = SchemaUpdater::default();
    updater
        .add_deployment(Some(1), mock_metadata("http://localhost:9080"), vec![greeter_service()], false)
        .unwrap();
    let schemas = updater.into_inner();
    let version_before = schemas.version();

    let mut updater = SchemaUpdater::from(schemas);
    updater.remove_deployment(99);
    let schemas = updater.into_inner();
    assert_eq!(schemas.version(), version_before);
    assert!(schemas.get_deployment(1).is_some());
}
