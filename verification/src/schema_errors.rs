//! Errors of the schema registry updater. A failed mutation commits nothing:
//! the catalog and the version counter stay as they were.

use crate::schema::{names_contain, DeploymentId, ResourceUri, ResourceUriView, SubscriptionId};
use vstd::prelude::*;

verus! {

/// A mutation would silently overwrite this resource without `force`.
#[derive(Debug, PartialEq, Eq)]
pub enum Overridden {
    Deployment(DeploymentId),
    Subscription(SubscriptionId),
}

/// Errors tied to deployment resolution.
#[derive(Debug, PartialEq, Eq)]
pub enum DeploymentError {
    /// The requested identifier conflicts with the deployment that already
    /// serves the endpoint; rejected regardless of `force`.
    IncorrectId { requested: DeploymentId, existing: DeploymentId },
}

/// Errors tied to one proposed component.
#[derive(Debug, PartialEq, Eq)]
pub enum ComponentError {
    /// The fully qualified component name is empty.
    InvalidName(String),
    /// The same name occurs twice within one proposal.
    DuplicateName(String),
    /// A non-forced update would drop these handlers.
    RemovedHandlers(String, Vec<String>),
    /// A non-forced update would change the component kind.
    DifferentType(String),
    /// A handler input content type failed to parse: handler name, then the
    /// offending content type.
    BadInputContentType(String, String),
    /// A handler output content type is not a valid header value.
    BadOutputContentType(String),
}

/// Errors tied to subscription creation.
#[derive(Debug, PartialEq, Eq)]
pub enum SubscriptionError {
    /// The source scheme is not `kafka`.
    InvalidSourceScheme(ResourceUri),
    /// The sink scheme is not `component`.
    InvalidSinkScheme(ResourceUri),
    /// A kafka source names no cluster.
    InvalidKafkaSourceAuthority(ResourceUri),
    /// A component sink names no component.
    InvalidComponentSinkAuthority(ResourceUri),
    /// The sink's component, or its handler, is not in the catalog.
    SinkComponentNotFound(ResourceUri),
    /// The external validator rejected the subscription.
    Validation(String),
}

/// Any error of the schema registry updater.
#[derive(Debug, PartialEq, Eq)]
pub enum SchemaError {
    Override(Overridden),
    Deployment(DeploymentError),
    Component(ComponentError),
    Subscription(SubscriptionError),
}

/// View of [`SchemaError`]: the same case analysis over views. The removed
/// handler names are viewed as the set of names the list holds; the updater
/// reports them without a promised order.
#[verifier::ext_equal]
pub ghost enum SchemaErrorView {
    OverrideDeployment(DeploymentId),
    OverrideSubscription(SubscriptionId),
    IncorrectId { requested: DeploymentId, existing: DeploymentId },
    InvalidName(Seq<char>),
    DuplicateName(Seq<char>),
    RemovedHandlers(Seq<char>, Set<Seq<char>>),
    DifferentType(Seq<char>),
    BadInputContentType(Seq<char>, Seq<char>),
    BadOutputContentType(Seq<char>),
    InvalidSourceScheme(ResourceUriView),
    InvalidSinkScheme(ResourceUriView),
    InvalidKafkaSourceAuthority(ResourceUriView),
    InvalidComponentSinkAuthority(ResourceUriView),
    SinkComponentNotFound(ResourceUriView),
    Validation(Seq<char>),
}

impl View for Overridden {
    type V = SchemaErrorView;

    open spec fn view(&self) -> SchemaErrorView {
        match self {
            Overridden::Deployment(d) => SchemaErrorView::OverrideDeployment(*d),
            Overridden::Subscription(s) => SchemaErrorView::OverrideSubscription(*s),
        }
    }
}

impl View for DeploymentError {
    type V = SchemaErrorView;

    open spec fn view(&self) -> SchemaErrorView {
        match self {
            DeploymentError::IncorrectId { requested, existing } => SchemaErrorView::IncorrectId {
                requested: *requested,
                existing: *existing,
            },
        }
    }
}

impl View for ComponentError {
    type V = SchemaErrorView;

    open spec fn view(&self) -> SchemaErrorView {
        match self {
            ComponentError::InvalidName(n) => SchemaErrorView::InvalidName(n@),
            ComponentError::DuplicateName(n) => SchemaErrorView::DuplicateName(n@),
            ComponentError::RemovedHandlers(n, hs) => SchemaErrorView::RemovedHandlers(
                n@,
                Set::new(|x: Seq<char>| names_contain(hs@, x)),
            ),
            ComponentError::DifferentType(n) => SchemaErrorView::DifferentType(n@),
            ComponentError::BadInputContentType(h, ct) => SchemaErrorView::BadInputContentType(
                h@,
                ct@,
            ),
            ComponentError::BadOutputContentType(ct) => SchemaErrorView::BadOutputContentType(ct@),
        }
    }
}

impl View for SubscriptionError {
    type V = SchemaErrorView;

    open spec fn view(&self) -> SchemaErrorView {
        match self {
            SubscriptionError::InvalidSourceScheme(u) => SchemaErrorView::InvalidSourceScheme(u@),
            SubscriptionError::InvalidSinkScheme(u) => SchemaErrorView::InvalidSinkScheme(u@),
            SubscriptionError::InvalidKafkaSourceAuthority(u) => SchemaErrorView::InvalidKafkaSourceAuthority(
                u@,
            ),
            SubscriptionError::InvalidComponentSinkAuthority(u) => SchemaErrorView::InvalidComponentSinkAuthority(
                u@,
            ),
            SubscriptionError::SinkComponentNotFound(u) => SchemaErrorView::SinkComponentNotFound(
                u@,
            ),
            SubscriptionError::Validation(m) => SchemaErrorView::Validation(m@),
        }
    }
}

impl View for SchemaError {
    type V = SchemaErrorView;

    open spec fn view(&self) -> SchemaErrorView {
        match self {
            SchemaError::Override(o) => o@,
            SchemaError::Deployment(d) => d@,
            SchemaError::Component(c) => c@,
            SchemaError::Subscription(e) => e@,
        }
    }
}

} // verus!
