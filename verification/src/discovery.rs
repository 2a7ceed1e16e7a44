//! What service discovery reports about a deployment: the components it
//! serves and their handlers, with optional input and output payload
//! descriptions. These are the inputs of deployment registration.

use crate::schema::{ComponentType, HandlerType};
use vstd::prelude::*;

verus! {

/// Description of one handler input, as discovered.
#[derive(Debug)]
pub struct InputPayload {
    /// Whether a body must be present. Absent means not required.
    pub required: Option<bool>,
    /// Accepted content-type pattern. Absent means any.
    pub content_type: Option<String>,
    /// Whether discovery supplied a JSON schema for the body.
    pub has_json_schema: bool,
}

/// View of [`InputPayload`].
#[verifier::ext_equal]
pub ghost struct InputPayloadView {
    pub required: Option<bool>,
    pub content_type: Option<Seq<char>>,
    pub has_json_schema: bool,
}

impl View for InputPayload {
    type V = InputPayloadView;

    open spec fn view(&self) -> InputPayloadView {
        InputPayloadView {
            required: self.required,
            content_type: match &self.content_type {
                Some(s) => Some(s@),
                None => None,
            },
            has_json_schema: self.has_json_schema,
        }
    }
}

/// Description of one handler output, as discovered.
#[derive(Debug)]
pub struct OutputPayload {
    /// Content type the handler answers with, if it sets one.
    pub content_type: Option<String>,
    /// Whether the content type is stamped even on empty bodies.
    pub set_content_type_if_empty: Option<bool>,
    /// Whether discovery supplied a JSON schema for the body.
    pub has_json_schema: bool,
}

/// View of [`OutputPayload`].
#[verifier::ext_equal]
pub ghost struct OutputPayloadView {
    pub content_type: Option<Seq<char>>,
    pub set_content_type_if_empty: Option<bool>,
    pub has_json_schema: bool,
}

impl View for OutputPayload {
    type V = OutputPayloadView;

    open spec fn view(&self) -> OutputPayloadView {
        OutputPayloadView {
            content_type: match &self.content_type {
                Some(s) => Some(s@),
                None => None,
            },
            set_content_type_if_empty: self.set_content_type_if_empty,
            has_json_schema: self.has_json_schema,
        }
    }
}

/// One discovered handler.
#[derive(Debug)]
pub struct Handler {
    pub name: String,
    /// Absent means the default for the component kind.
    pub handler_type: Option<HandlerType>,
    pub input: Option<InputPayload>,
    pub output: Option<OutputPayload>,
}

/// View of [`Handler`].
#[verifier::ext_equal]
pub ghost struct HandlerView {
    pub name: Seq<char>,
    pub handler_type: Option<HandlerType>,
    pub input: Option<InputPayloadView>,
    pub output: Option<OutputPayloadView>,
}

impl View for Handler {
    type V = HandlerView;

    open spec fn view(&self) -> HandlerView {
        HandlerView {
            name: self.name@,
            handler_type: self.handler_type,
            input: match &self.input {
                Some(p) => Some(p@),
                None => None,
            },
            output: match &self.output {
                Some(p) => Some(p@),
                None => None,
            },
        }
    }
}

/// One discovered component with its handlers.
#[derive(Debug)]
pub struct Component {
    pub component_type: ComponentType,
    pub fully_qualified_component_name: String,
    pub handlers: Vec<Handler>,
}

/// View of [`Component`].
#[verifier::ext_equal]
pub ghost struct ComponentView {
    pub component_type: ComponentType,
    pub fully_qualified_component_name: Seq<char>,
    pub handlers: Seq<HandlerView>,
}

impl View for Component {
    type V = ComponentView;

    open spec fn view(&self) -> ComponentView {
        ComponentView {
            component_type: self.component_type,
            fully_qualified_component_name: self.fully_qualified_component_name@,
            handlers: self.handlers@.map_values(|h: Handler| h@),
        }
    }
}

} // verus!
