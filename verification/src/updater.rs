//! The schema registry updater: one mutation session over a borrowed
//! [`SchemaInformation`]. Mutations mark the session; finalizing a marked
//! session bumps the catalog version exactly once, so a batch of mutations
//! commits atomically with a single version step.

use crate::content_type::{accepted_header_value, header_value_ok, parse_input_content_type,
    parsed_content_type};
use crate::discovery::{Component, ComponentView, Handler, HandlerView, InputPayload,
    InputPayloadView, OutputPayload, OutputPayloadView};
use crate::schema::{ComponentLocation, ComponentSchemas, ComponentSchemasView, ComponentSnapshot,
    ComponentSnapshotView, ComponentType, ContentTypePattern, DeploymentId, DeploymentMetadata,
    DeploymentMetadataView, DeploymentSchemas, DeploymentSchemasView, HandlerSchemas, HandlerSchemasView, HandlerType,
    InputContentType, InputRules, InputRulesView, InputValidationRule, InputValidationRuleView,
    InvocationTargetMetadata, InvocationTargetMetadataView, OrderingKeyFormat,
    OutputContentTypeRule, OutputContentTypeRuleView, OutputRules, OutputRulesView, ResourceUri,
    ResourceUriView, SchemaInformation, Sink, SinkView, Source, SourceView, Subscription,
    SubscriptionId, SubscriptionView, EventReceiverComponentType, first_deployment_with_address,
    names_contain, path_tail, seq_max, snapshot_has, snapshot_revision, snapshots_wf};
use crate::schema_errors::{ComponentError, DeploymentError, Overridden, SchemaError,
    SchemaErrorView, SubscriptionError};
use crate::str_map::StrMap;
use vstd::prelude::*;

verus! {

/// Accepts or rewrites a subscription before it enters the catalog. The
/// catalog's callers implement this; a rejection surfaces as a validation
/// error and commits nothing.
pub trait SubscriptionValidator {
    fn validate(&self, subscription: Subscription) -> Result<Subscription, String>;
}

/// One mutation session over a [`SchemaInformation`].
#[derive(Debug)]
pub struct SchemaUpdater {
    pub schema_information: SchemaInformation,
    pub modified: bool,
}

/// The catalog a session hands back: the version is bumped exactly when the
/// session mutated something.
pub open spec fn finalized(u: SchemaUpdater) -> SchemaInformation {
    if u.modified {
        SchemaInformation {
            version: (u.schema_information.version + 1) as u64,
            deployments: u.schema_information.deployments,
            components: u.schema_information.components,
            subscriptions: u.schema_information.subscriptions,
        }
    } else {
        u.schema_information
    }
}

impl From<SchemaInformation> for SchemaUpdater {
    /// A fresh session: nothing mutated yet.
    fn from(schema_information: SchemaInformation) -> (r: Self)
        ensures
            r.schema_information == schema_information,
            !r.modified,
    {
        SchemaUpdater { schema_information, modified: false }
    }
}

impl vstd::std_specs::convert::FromSpecImpl<SchemaInformation> for SchemaUpdater {
    open spec fn obeys_from_spec() -> bool {
        true
    }

    open spec fn from_spec(schema_information: SchemaInformation) -> SchemaUpdater {
        SchemaUpdater { schema_information, modified: false }
    }
}

impl Default for SchemaUpdater {
    /// A fresh session over the empty catalog.
    fn default() -> (r: Self)
        ensures
            r.schema_information.version == 1,
            r.schema_information.deployments@ == Map::<u64, DeploymentSchemasView>::empty(),
            r.schema_information.components@ == Map::<Seq<char>, ComponentSchemasView>::empty(),
            r.schema_information.subscriptions@ == Map::<u64, SubscriptionView>::empty(),
            r.schema_information.deployments.key_seq() == Seq::<u64>::empty(),
            r.schema_information.wf(),
            !r.modified,
    {
        SchemaUpdater { schema_information: Default::default(), modified: false }
    }
}


/// The handler schema with its visibility replaced.
pub open spec fn handler_with_public(h: HandlerSchemasView, public: bool) -> HandlerSchemasView {
    HandlerSchemasView {
        target_meta: InvocationTargetMetadataView { public, ..h.target_meta },
    }
}

/// The component schema with its visibility, and every handler's, replaced.
pub open spec fn component_with_public(c: ComponentSchemasView, public: bool) -> ComponentSchemasView {
    ComponentSchemasView {
        revision: c.revision,
        ty: c.ty,
        handlers: c.handlers.map_values(|h: HandlerSchemasView| handler_with_public(h, public)),
        location: ComponentLocation { latest_deployment: c.location.latest_deployment, public },
    }
}

/// The unique snapshot carrying `name` decides `snapshot_revision`.
pub proof fn lemma_snapshot_lookup(s: Seq<ComponentSnapshotView>, name: Seq<char>, j: int)
    requires
        snapshots_wf(s),
        0 <= j < s.len(),
        s[j].name == name,
    ensures
        snapshot_revision(s, name) == Some(s[j].revision),
{
    let i = choose|i: int| 0 <= i < s.len() && s[i].name == name;
    if i < j {
        assert(s[i].name != s[j].name);
    } else if j < i {
        assert(s[j].name != s[i].name);
    }
}


/// The scheme of an event source: `kafka`.
pub open spec fn kafka_scheme() -> Seq<char> {
    seq!['k', 'a', 'f', 'k', 'a']
}

/// The scheme of an event sink: `component`.
pub open spec fn component_scheme() -> Seq<char> {
    seq!['c', 'o', 'm', 'p', 'o', 'n', 'e', 'n', 't']
}

/// How events reach a component of this kind.
pub open spec fn spec_receiver_ty(t: ComponentType) -> EventReceiverComponentType {
    match t {
        ComponentType::VirtualObject => EventReceiverComponentType::VirtualObject {
            ordering_key_is_key: false,
        },
        ComponentType::Service => EventReceiverComponentType::Service,
    }
}

/// The source a locator denotes: scheme `kafka`, its authority the cluster,
/// the path after the slash the topic.
pub open spec fn parsed_source(u: ResourceUriView) -> Result<SourceView, SchemaErrorView> {
    if u.scheme != kafka_scheme() {
        Err(SchemaErrorView::InvalidSourceScheme(u))
    } else {
        match u.authority {
            None => Err(SchemaErrorView::InvalidKafkaSourceAuthority(u)),
            Some(a) => Ok(
                SourceView::Kafka {
                    cluster: a,
                    topic: path_tail(u.path),
                    ordering_key_format: OrderingKeyFormat::ConsumerGroupTopicPartition,
                },
            ),
        }
    }
}

/// The sink a locator denotes against a catalog: scheme `component`, its
/// authority a known component, the path after the slash one of its handlers.
pub open spec fn parsed_sink(
    components: Map<Seq<char>, ComponentSchemasView>,
    u: ResourceUriView,
) -> Result<SinkView, SchemaErrorView> {
    if u.scheme != component_scheme() {
        Err(SchemaErrorView::InvalidSinkScheme(u))
    } else {
        match u.authority {
            None => Err(SchemaErrorView::InvalidComponentSinkAuthority(u)),
            Some(name) => {
                if !components.contains_key(name) {
                    Err(SchemaErrorView::SinkComponentNotFound(u))
                } else if !components[name].handlers.contains_key(path_tail(u.path)) {
                    Err(SchemaErrorView::SinkComponentNotFound(u))
                } else {
                    Ok(
                        SinkView::Component {
                            name,
                            handler: path_tail(u.path),
                            ty: spec_receiver_ty(components[name].ty),
                        },
                    )
                }
            },
        }
    }
}

/// The subscription a pair of locators denotes, or the first error met:
/// source first, then sink.
pub open spec fn built_subscription(
    components: Map<Seq<char>, ComponentSchemasView>,
    id: SubscriptionId,
    source: ResourceUriView,
    sink: ResourceUriView,
    metadata: Seq<(Seq<char>, Seq<char>)>,
) -> Result<SubscriptionView, SchemaErrorView> {
    match parsed_source(source) {
        Err(e) => Err(e),
        Ok(src) => match parsed_sink(components, sink) {
            Err(e) => Err(e),
            Ok(snk) => Ok(SubscriptionView { id, source: src, sink: snk, metadata }),
        },
    }
}

/// The characters of a path after its leading slash, as an owned string.
fn tail_string(p: &str) -> (r: String)
    ensures
        r@ == path_tail(p@),
{
    let n = p.unicode_len();
    if n >= 1 {
        String::from_str(p.substring_char(1, n))
    } else {
        String::new()
    }
}


/// Input rules assumed when discovery describes no input: an empty body, or
/// any content type at all.
pub open spec fn default_input_rules() -> InputRulesView {
    InputRulesView {
        input_validation_rules: seq![
            InputValidationRuleView::NoBodyAndContentType,
            InputValidationRuleView::ContentType { content_type: ContentTypePattern::Any },
        ],
    }
}

/// Output rules assumed when discovery describes no output: no content type.
pub open spec fn default_output_rules() -> OutputRulesView {
    OutputRulesView { content_type_rule: OutputContentTypeRuleView::NoContentType }
}

/// The input rules a discovered input payload denotes, or nothing when its
/// content type fails to parse: an empty-body rule unless the input is
/// required, then one content-type rule, JSON-flavored when a schema came
/// along.
pub open spec fn input_rules_of(p: InputPayloadView) -> Option<InputRulesView> {
    let required = match p.required {
        Some(b) => b,
        None => false,
    };
    let ct = match p.content_type {
        None => Some(ContentTypePattern::Any),
        Some(s) => parsed_content_type(s),
    };
    match ct {
        None => None,
        Some(ct) => {
            let main_rule = if p.has_json_schema {
                InputValidationRuleView::JsonValue { content_type: ct }
            } else {
                InputValidationRuleView::ContentType { content_type: ct }
            };
            Some(
                InputRulesView {
                    input_validation_rules: if !required {
                        seq![InputValidationRuleView::NoBodyAndContentType, main_rule]
                    } else {
                        seq![main_rule]
                    },
                },
            )
        },
    }
}

/// The output rules a discovered output payload denotes, or nothing when its
/// content type is no valid header value.
pub open spec fn output_rules_of(p: OutputPayloadView) -> Option<OutputRulesView> {
    match p.content_type {
        None => Some(default_output_rules()),
        Some(ct) => if header_value_ok(ct) {
            Some(
                OutputRulesView {
                    content_type_rule: OutputContentTypeRuleView::SetContentType {
                        content_type: ct,
                        set_content_type_if_empty: match p.set_content_type_if_empty {
                            Some(b) => b,
                            None => false,
                        },
                        has_json_schema: p.has_json_schema,
                    },
                },
            )
        } else {
            None
        },
    }
}

/// One discovered handler, normalized: kind defaulted from the component
/// kind, input and output rules resolved.
#[derive(Debug)]
pub struct DiscoveredHandlerMetadata {
    pub name: String,
    pub ty: HandlerType,
    pub input: InputRules,
    pub output: OutputRules,
}

/// View of [`DiscoveredHandlerMetadata`].
#[verifier::ext_equal]
pub ghost struct DiscoveredHandlerMetadataView {
    pub name: Seq<char>,
    pub ty: HandlerType,
    pub input: InputRulesView,
    pub output: OutputRulesView,
}

impl View for DiscoveredHandlerMetadata {
    type V = DiscoveredHandlerMetadataView;

    open spec fn view(&self) -> DiscoveredHandlerMetadataView {
        DiscoveredHandlerMetadataView {
            name: self.name@,
            ty: self.ty,
            input: self.input@,
            output: self.output@,
        }
    }
}

/// The normalized form of a discovered handler, or nothing when one of its
/// content types is rejected.
pub open spec fn discovered_handler_of(
    component_type: ComponentType,
    h: HandlerView,
) -> Option<DiscoveredHandlerMetadataView> {
    let ty = match h.handler_type {
        None => HandlerType::spec_default_for(component_type),
        Some(t) => t,
    };
    let input = match h.input {
        None => Some(default_input_rules()),
        Some(p) => input_rules_of(p),
    };
    let output = match h.output {
        None => Some(default_output_rules()),
        Some(p) => output_rules_of(p),
    };
    match (input, output) {
        (Some(i), Some(o)) => Some(
            DiscoveredHandlerMetadataView { name: h.name, ty, input: i, output: o },
        ),
        _ => None,
    }
}

/// The error a rejected handler reports: its input content type first, its
/// output content type second.
pub open spec fn handler_error(h: HandlerView) -> Option<SchemaErrorView> {
    let input_bad = match h.input {
        Some(p) => match p.content_type {
            Some(s) => parsed_content_type(s) is None,
            None => false,
        },
        None => false,
    };
    let output_bad = match h.output {
        Some(p) => match p.content_type {
            Some(s) => !header_value_ok(s),
            None => false,
        },
        None => false,
    };
    if input_bad {
        Some(SchemaErrorView::BadInputContentType(h.name, h.input->0.content_type->0))
    } else if output_bad {
        Some(SchemaErrorView::BadOutputContentType(h.output->0.content_type->0))
    } else {
        None
    }
}

/// The stored handler schema a normalized handler yields: freshly discovered
/// handlers are public.
pub open spec fn handler_schemas_of(
    component_ty: ComponentType,
    h: DiscoveredHandlerMetadataView,
) -> HandlerSchemasView {
    HandlerSchemasView {
        target_meta: InvocationTargetMetadataView {
            public: true,
            component_ty,
            handler_ty: h.ty,
            input_rules: h.input,
            output_rules: h.output,
        },
    }
}

/// The handler table a sequence of normalized handlers yields; on a repeated
/// name the later entry wins.
pub open spec fn handlers_map_of(
    component_ty: ComponentType,
    hs: Seq<DiscoveredHandlerMetadataView>,
) -> Map<Seq<char>, HandlerSchemasView>
    decreases hs.len(),
{
    if hs.len() == 0 {
        Map::empty()
    } else {
        handlers_map_of(component_ty, hs.drop_last()).insert(
            hs.last().name,
            handler_schemas_of(component_ty, hs.last()),
        )
    }
}

impl DiscoveredHandlerMetadata {
    /// Normalize one discovered handler, exactly as [`discovered_handler_of`]
    /// describes; a rejected content type reports the error
    /// [`handler_error`] names.
    pub fn from_schema(component_type: ComponentType, handler: &Handler) -> (r: Result<
        DiscoveredHandlerMetadata,
        ComponentError,
    >)
        ensures
            match r {
                Ok(m) => discovered_handler_of(component_type, handler@) == Some(m@),
                Err(e) => discovered_handler_of(component_type, handler@) is None && handler_error(
                    handler@,
                ) == Some(e@),
            },
    {
        let handler_type = match &handler.handler_type {
            None => HandlerType::default_for_component_type(component_type),
            Some(t) => *t,
        };
        let input = match &handler.input {
            None => {
                let r = InputRules {
                    input_validation_rules: vec![
                        InputValidationRule::NoBodyAndContentType,
                        InputValidationRule::ContentType { content_type: InputContentType::Any },
                    ],
                };
                proof {
                    assert(r@.input_validation_rules
                        =~= default_input_rules().input_validation_rules);
                }
                r
            },
            Some(p) => match Self::input_rules_from_schema(&handler.name, p) {
                Ok(rules) => rules,
                Err(e) => {
                    return Err(e);
                },
            },
        };
        let output = match &handler.output {
            None => OutputRules { content_type_rule: OutputContentTypeRule::NoContentType },
            Some(p) => match Self::output_rules_from_schema(p) {
                Ok(rules) => rules,
                Err(e) => {
                    return Err(e);
                },
            },
        };
        Ok(
            DiscoveredHandlerMetadata {
                name: handler.name.clone(),
                ty: handler_type,
                input,
                output,
            },
        )
    }

    /// The input rules of one discovered input payload, exactly as
    /// [`input_rules_of`] describes.
    pub fn input_rules_from_schema(handler_name: &String, schema: &InputPayload) -> (r: Result<
        InputRules,
        ComponentError,
    >)
        ensures
            match r {
                Ok(rules) => input_rules_of(schema@) == Some(rules@),
                Err(e) => input_rules_of(schema@) is None && schema@.content_type is Some && e@
                    == SchemaErrorView::BadInputContentType(
                    handler_name@,
                    schema@.content_type->0,
                ),
            },
    {
        let required = match schema.required {
            Some(b) => b,
            None => false,
        };
        let mut input_validation_rules: Vec<InputValidationRule> = Vec::new();
        if !required {
            input_validation_rules.push(InputValidationRule::NoBodyAndContentType);
        }
        let content_type = match &schema.content_type {
            Some(s) => match parse_input_content_type(s) {
                Some(ct) => ct,
                None => {
                    return Err(
                        ComponentError::BadInputContentType(handler_name.clone(), s.clone()),
                    );
                },
            },
            None => InputContentType::Any,
        };
        if schema.has_json_schema {
            input_validation_rules.push(InputValidationRule::JsonValue { content_type });
        } else {
            input_validation_rules.push(InputValidationRule::ContentType { content_type });
        }
        let r = InputRules { input_validation_rules };
        proof {
            assert(r@.input_validation_rules
                =~= input_rules_of(schema@)->0.input_validation_rules);
        }
        Ok(r)
    }

    /// The output rules of one discovered output payload, exactly as
    /// [`output_rules_of`] describes.
    pub fn output_rules_from_schema(schema: &OutputPayload) -> (r: Result<
        OutputRules,
        ComponentError,
    >)
        ensures
            match r {
                Ok(rules) => output_rules_of(schema@) == Some(rules@),
                Err(e) => output_rules_of(schema@) is None && schema@.content_type is Some && e@
                    == SchemaErrorView::BadOutputContentType(schema@.content_type->0),
            },
    {
        match &schema.content_type {
            Some(ct) => {
                if accepted_header_value(ct) {
                    Ok(
                        OutputRules {
                            content_type_rule: OutputContentTypeRule::SetContentType {
                                content_type: ct.clone(),
                                set_content_type_if_empty: match schema.set_content_type_if_empty {
                                    Some(b) => b,
                                    None => false,
                                },
                                has_json_schema: schema.has_json_schema,
                            },
                        },
                    )
                } else {
                    Err(ComponentError::BadOutputContentType(ct.clone()))
                }
            },
            None => Ok(OutputRules { content_type_rule: OutputContentTypeRule::NoContentType }),
        }
    }

    /// The handler table of a sequence of normalized handlers, exactly as
    /// [`handlers_map_of`] describes.
    pub fn compute_handlers(
        component_ty: ComponentType,
        handlers: Vec<DiscoveredHandlerMetadata>,
    ) -> (r: StrMap<HandlerSchemas>)
        ensures
            r@ == handlers_map_of(
                component_ty,
                handlers@.map_values(|h: DiscoveredHandlerMetadata| h@),
            ),
    {
        let ghost hviews = handlers@.map_values(|h: DiscoveredHandlerMetadata| h@);
        let n = handlers.len();
        let mut table: StrMap<HandlerSchemas> = StrMap::new();
        let mut i: usize = 0;
        proof {
            assert(hviews.take(0) =~= Seq::<DiscoveredHandlerMetadataView>::empty());
        }
        while i < n
            invariant
                i <= n,
                n == handlers@.len(),
                hviews == handlers@.map_values(|h: DiscoveredHandlerMetadata| h@),
                table@ == handlers_map_of(component_ty, hviews.take(i as int)),
            decreases n - i,
        {
            let h = &handlers[i];
            let schemas = HandlerSchemas {
                target_meta: InvocationTargetMetadata {
                    public: true,
                    component_ty,
                    handler_ty: h.ty,
                    input_rules: h.input.clone(),
                    output_rules: h.output.clone(),
                },
            };
            table.insert(h.name.clone(), schemas);
            proof {
                assert(hviews.take(i as int + 1).drop_last() =~= hviews.take(i as int));
                assert(hviews.take(i as int + 1).last() == hviews[i as int]);
            }
            i += 1;
        }
        proof {
            assert(hviews.take(n as int) =~= hviews);
        }
        table
    }
}


/// A revision bump; revisions wrap on overflow.
pub open spec fn wrap_inc(r: u64) -> u64 {
    if r == u64::MAX {
        0
    } else {
        (r + 1) as u64
    }
}

/// Whether the proposal names this component.
pub open spec fn proposal_has(cs: Seq<ComponentView>, name: Seq<char>) -> bool {
    exists|i: int| 0 <= i < cs.len() && cs[i].fully_qualified_component_name == name
}

/// The names of the first `i` proposed components.
pub open spec fn prefix_names(cs: Seq<ComponentView>, i: int) -> Set<Seq<char>> {
    Set::new(
        |name: Seq<char>| exists|j: int| 0 <= j < i && cs[j].fully_qualified_component_name == name,
    )
}

/// The first naming error of a proposal: an empty name, or a name already
/// seen.
pub open spec fn first_name_error(cs: Seq<ComponentView>, seen: Set<Seq<char>>) -> Option<
    SchemaErrorView,
>
    decreases cs.len(),
{
    if cs.len() == 0 {
        None
    } else {
        let name = cs[0].fully_qualified_component_name;
        if name.len() == 0 {
            Some(SchemaErrorView::InvalidName(name))
        } else if seen.contains(name) {
            Some(SchemaErrorView::DuplicateName(name))
        } else {
            first_name_error(cs.drop_first(), seen.insert(name))
        }
    }
}

/// The first rejected handler of a component, if any.
pub open spec fn first_handler_error(hs: Seq<HandlerView>) -> Option<SchemaErrorView>
    decreases hs.len(),
{
    if hs.len() == 0 {
        None
    } else {
        match handler_error(hs[0]) {
            Some(e) => Some(e),
            None => first_handler_error(hs.drop_first()),
        }
    }
}

/// The normalized handlers of a proposed component; meaningful only when none
/// of them is rejected.
pub open spec fn discovered_handlers_of(c: ComponentView) -> Seq<DiscoveredHandlerMetadataView> {
    c.handlers.map_values(|h: HandlerView| discovered_handler_of(c.component_type, h)->0)
}

/// The first error one proposed component raises against the current catalog:
/// a rejected handler; then, where the component already exists and `force` is
/// off, dropped handlers or a changed kind.
pub open spec fn component_error(
    old_components: Map<Seq<char>, ComponentSchemasView>,
    c: ComponentView,
    force: bool,
) -> Option<SchemaErrorView> {
    let name = c.fully_qualified_component_name;
    match first_handler_error(c.handlers) {
        Some(e) => Some(e),
        None => {
            if old_components.contains_key(name) {
                let ex = old_components[name];
                let new_handlers = handlers_map_of(c.component_type, discovered_handlers_of(c));
                if (exists|h: Seq<char>| #[trigger]
                    ex.handlers.contains_key(h) && !new_handlers.contains_key(h)) && !force {
                    Some(
                        SchemaErrorView::RemovedHandlers(
                            name,
                            ex.handlers.dom().difference(new_handlers.dom()),
                        ),
                    )
                } else if ex.ty != c.component_type && !force {
                    Some(SchemaErrorView::DifferentType(name))
                } else {
                    None
                }
            } else {
                None
            }
        },
    }
}

/// The first error any proposed component raises, in proposal order.
pub open spec fn first_component_error(
    old_components: Map<Seq<char>, ComponentSchemasView>,
    cs: Seq<ComponentView>,
    force: bool,
) -> Option<SchemaErrorView>
    decreases cs.len(),
{
    if cs.len() == 0 {
        None
    } else {
        match component_error(old_components, cs[0], force) {
            Some(e) => Some(e),
            None => first_component_error(old_components, cs.drop_first(), force),
        }
    }
}

/// The existing deployment a registration resolves against: the requested
/// identifier when it is registered, else the first deployment at the same
/// endpoint.
pub open spec fn resolved_deployment(
    si: SchemaInformation,
    requested: Option<DeploymentId>,
    address: Seq<char>,
) -> Option<DeploymentId> {
    match requested {
        Some(id) => if si.deployments@.contains_key(id) {
            Some(id)
        } else {
            first_deployment_with_address(si.deployments@, si.deployments.key_seq(), address)
        },
        None => first_deployment_with_address(si.deployments@, si.deployments.key_seq(), address),
    }
}

/// The identifier a successful registration uses: the resolved deployment's,
/// else the requested one, else a fresh one.
pub open spec fn chosen_deployment_id(
    si: SchemaInformation,
    requested: Option<DeploymentId>,
    address: Seq<char>,
) -> DeploymentId {
    match resolved_deployment(si, requested, address) {
        Some(existing) => existing,
        None => match requested {
            Some(id) => id,
            None => (seq_max(si.deployments.key_seq()) + 1) as u64,
        },
    }
}

/// The components a forced re-registration deletes: those the resolved
/// deployment's record snapshots and the new proposal no longer names.
pub open spec fn removed_component_names(
    si: SchemaInformation,
    requested: Option<DeploymentId>,
    address: Seq<char>,
    cs: Seq<ComponentView>,
) -> Set<Seq<char>> {
    match resolved_deployment(si, requested, address) {
        Some(d) => Set::new(
            |name: Seq<char>|
                snapshot_has(si.deployments@[d].components, name) && !proposal_has(cs, name),
        ),
        None => Set::<Seq<char>>::empty(),
    }
}

/// The first error a registration raises: naming first; then an identifier
/// conflict at the resolved deployment, rejected regardless of `force`; then a
/// non-forced overwrite; then the per-component checks in proposal order.
pub open spec fn add_deployment_error(
    si: SchemaInformation,
    requested: Option<DeploymentId>,
    metadata: DeploymentMetadataView,
    cs: Seq<ComponentView>,
    force: bool,
) -> Option<SchemaErrorView> {
    match first_name_error(cs, Set::empty()) {
        Some(e) => Some(e),
        None => match resolved_deployment(si, requested, metadata.address) {
            Some(existing) => {
                if requested is Some && requested->0 != existing {
                    Some(SchemaErrorView::IncorrectId { requested: requested->0, existing })
                } else if !force {
                    Some(SchemaErrorView::OverrideDeployment(existing))
                } else {
                    first_component_error(si.components@, cs, force)
                }
            },
            None => first_component_error(si.components@, cs, force),
        },
    }
}

/// The stored schema a successful registration writes for one proposed
/// component: an existing component keeps its visibility and bumps its
/// revision; a new one starts public at revision one.
pub open spec fn computed_component(
    old_components: Map<Seq<char>, ComponentSchemasView>,
    c: ComponentView,
    id: DeploymentId,
) -> ComponentSchemasView {
    let name = c.fully_qualified_component_name;
    let handlers = handlers_map_of(c.component_type, discovered_handlers_of(c));
    if old_components.contains_key(name) {
        let ex = old_components[name];
        ComponentSchemasView {
            revision: wrap_inc(ex.revision),
            ty: c.component_type,
            handlers,
            location: ComponentLocation { latest_deployment: id, public: ex.location.public },
        }
    } else {
        ComponentSchemasView {
            revision: 1,
            ty: c.component_type,
            handlers,
            location: ComponentLocation { latest_deployment: id, public: true },
        }
    }
}


/// The snapshot a successful registration records for one proposed component.
pub open spec fn snapshot_of(
    old_components: Map<Seq<char>, ComponentSchemasView>,
    c: ComponentView,
    id: DeploymentId,
) -> ComponentSnapshotView {
    ComponentSnapshotView {
        name: c.fully_qualified_component_name,
        revision: computed_component(old_components, c, id).revision,
    }
}

/// The component table after the computed schemas are written over `base`.
pub open spec fn inserted_components(
    base: Map<Seq<char>, ComponentSchemasView>,
    old_components: Map<Seq<char>, ComponentSchemasView>,
    cs: Seq<ComponentView>,
    id: DeploymentId,
) -> Map<Seq<char>, ComponentSchemasView>
    decreases cs.len(),
{
    if cs.len() == 0 {
        base
    } else {
        inserted_components(base, old_components, cs.drop_last(), id).insert(
            cs.last().fully_qualified_component_name,
            computed_component(old_components, cs.last(), id),
        )
    }
}

/// The record a successful registration writes: the endpoint metadata, and one
/// snapshot per proposed component at its new revision, in proposal order.
pub open spec fn new_deployment_record(
    old_components: Map<Seq<char>, ComponentSchemasView>,
    cs: Seq<ComponentView>,
    metadata: DeploymentMetadataView,
    id: DeploymentId,
) -> DeploymentSchemasView {
    DeploymentSchemasView {
        metadata,
        components: cs.map_values(|c: ComponentView| snapshot_of(old_components, c, id)),
    }
}

/// What `inserted_components` holds: the proposed names carry their computed
/// schemas, everything else is `base`.
proof fn lemma_inserted_components(
    base: Map<Seq<char>, ComponentSchemasView>,
    old_components: Map<Seq<char>, ComponentSchemasView>,
    cs: Seq<ComponentView>,
    id: DeploymentId,
)
    requires
        forall|i: int, j: int|
            0 <= i < j < cs.len() ==> cs[i].fully_qualified_component_name
                != cs[j].fully_qualified_component_name,
    ensures
        forall|k: Seq<char>|
            #[trigger] inserted_components(base, old_components, cs, id).contains_key(k) <==> (
            base.contains_key(k) || proposal_has(cs, k)),
        forall|i: int|
            0 <= i < cs.len() ==> inserted_components(base, old_components, cs, id)[(#[trigger] cs[i]).fully_qualified_component_name]
                == computed_component(old_components, cs[i], id),
        forall|k: Seq<char>|
            base.contains_key(k) && !proposal_has(cs, k)
                ==> inserted_components(base, old_components, cs, id)[k] == base[k],
    decreases cs.len(),
{
    if cs.len() == 0 {
        assert forall|k: Seq<char>|
            #[trigger] inserted_components(base, old_components, cs, id).contains_key(k) implies (
        base.contains_key(k) || proposal_has(cs, k)) by {}
    } else {
        let rest = cs.drop_last();
        let last = cs.last();
        lemma_inserted_components(base, old_components, rest, id);
        assert forall|k: Seq<char>|
            #[trigger] inserted_components(base, old_components, cs, id).contains_key(k) implies (
        base.contains_key(k) || proposal_has(cs, k)) by {
            if k == last.fully_qualified_component_name {
                assert(cs[cs.len() - 1].fully_qualified_component_name == k);
            } else {
                assert(inserted_components(base, old_components, rest, id).contains_key(k));
                if proposal_has(rest, k) {
                    let i = choose|i: int|
                        0 <= i < rest.len() && rest[i].fully_qualified_component_name == k;
                    assert(cs[i].fully_qualified_component_name == k);
                }
            }
        }
        assert forall|k: Seq<char>| (base.contains_key(k) || proposal_has(cs, k)) implies
            #[trigger] inserted_components(base, old_components, cs, id).contains_key(k) by {
            if k != last.fully_qualified_component_name {
                if proposal_has(cs, k) {
                    let i = choose|i: int|
                        0 <= i < cs.len() && cs[i].fully_qualified_component_name == k;
                    assert(i < rest.len() && rest[i].fully_qualified_component_name == k);
                    assert(proposal_has(rest, k));
                }
            }
        }
        assert forall|i: int| 0 <= i < cs.len() implies inserted_components(
            base,
            old_components,
            cs,
            id,
        )[(#[trigger] cs[i]).fully_qualified_component_name] == computed_component(
            old_components,
            cs[i],
            id,
        ) by {
            if i < cs.len() - 1 {
                assert(rest[i] == cs[i]);
                assert(cs[i].fully_qualified_component_name
                    != last.fully_qualified_component_name);
            } else {
                assert(cs[i] == last);
            }
        }
        assert forall|k: Seq<char>| base.contains_key(k) && !proposal_has(cs, k) implies
            inserted_components(base, old_components, cs, id)[k] == base[k] by {
            assert(cs[cs.len() - 1].fully_qualified_component_name
                == last.fully_qualified_component_name);
            assert(k != last.fully_qualified_component_name);
            if proposal_has(rest, k) {
                let i = choose|i: int|
                    0 <= i < rest.len() && rest[i].fully_qualified_component_name == k;
                assert(cs[i].fully_qualified_component_name == k);
            }
        }
    }
}

/// A resolved endpoint match is a registered deployment at that address.
proof fn lemma_first_deployment_props(
    m: Map<u64, DeploymentSchemasView>,
    keys: Seq<u64>,
    addr: Seq<char>,
)
    ensures
        match first_deployment_with_address(m, keys, addr) {
            Some(d) => m.contains_key(d) && m[d].metadata.address == addr,
            None => true,
        },
    decreases keys.len(),
{
    if keys.len() > 0 {
        if m.contains_key(keys[0]) && m[keys[0]].metadata.address == addr {
        } else {
            lemma_first_deployment_props(m, keys.drop_first(), addr);
        }
    }
}


/// Whether one of the first `k` snapshots carries this name while the
/// proposal does not.
spec fn snap_removed_prefix(
    snaps: Seq<ComponentSnapshotView>,
    cs: Seq<ComponentView>,
    k: int,
    x: Seq<char>,
) -> bool {
    exists|u: int| 0 <= u < k && (#[trigger] snaps[u]).name == x && !proposal_has(cs, x)
}

/// Whether one of the first `k` handler keys is absent from the new table.
spec fn missing_key_prefix(
    ekeys: Seq<Seq<char>>,
    m: Map<Seq<char>, HandlerSchemasView>,
    k: int,
    x: Seq<char>,
) -> bool {
    exists|u: int| 0 <= u < k && #[trigger] ekeys[u] == x && !m.contains_key(x)
}


/// The component table after writing each pair's schema under its name, in
/// order.
spec fn pairs_inserted(
    base: Map<Seq<char>, ComponentSchemasView>,
    pairs: Seq<(String, ComponentSchemas)>,
) -> Map<Seq<char>, ComponentSchemasView>
    decreases pairs.len(),
{
    if pairs.len() == 0 {
        base
    } else {
        pairs_inserted(base, pairs.drop_last()).insert(
            pairs.last().0@,
            pairs.last().1@,
        )
    }
}

/// Writing the computed schemas pair by pair equals `inserted_components`.
proof fn lemma_pairs_inserted_matches(
    base: Map<Seq<char>, ComponentSchemasView>,
    old_components: Map<Seq<char>, ComponentSchemasView>,
    cs: Seq<ComponentView>,
    pairs: Seq<(String, ComponentSchemas)>,
    id: DeploymentId,
)
    requires
        pairs.len() == cs.len(),
        forall|t: int|
            0 <= t < cs.len() ==> (#[trigger] pairs[t]).0@ == cs[t].fully_qualified_component_name,
        forall|t: int|
            0 <= t < cs.len() ==> (#[trigger] pairs[t]).1@ == computed_component(
                old_components,
                cs[t],
                id,
            ),
    ensures
        pairs_inserted(base, pairs) == inserted_components(base, old_components, cs, id),
    decreases cs.len(),
{
    if cs.len() > 0 {
        lemma_pairs_inserted_matches(base, old_components, cs.drop_last(), pairs.drop_last(), id);
        assert(pairs.drop_last().len() == cs.drop_last().len());
        assert(pairs[cs.len() - 1].0@ == cs[cs.len() - 1].fully_qualified_component_name);
        assert(pairs[cs.len() - 1].1@ == computed_component(old_components, cs[cs.len() - 1], id));
    }
}

/// Check that every proposed name is nonempty and appears only once.
#[verifier::loop_isolation(false)]
fn check_component_names(components: &Vec<Component>) -> (r: Result<(), SchemaError>)
    ensures
        ({
            let cs = components@.map_values(|c: Component| c@);
            match r {
                Ok(()) => {
                    &&& first_name_error(cs, Set::empty()) is None
                    &&& forall|a: int, b: int|
                        0 <= a < b < cs.len() ==> cs[a].fully_qualified_component_name
                            != cs[b].fully_qualified_component_name
                    &&& forall|a: int|
                        0 <= a < cs.len() ==> (
                        #[trigger] cs[a]).fully_qualified_component_name.len() > 0
                },
                Err(e) => first_name_error(cs, Set::empty()) == Some(e@),
            }
        }),
{
    let ghost cs = components@.map_values(|c: Component| c@);
    let n = components.len();
    proof {
        assert(cs.skip(0) =~= cs);
        assert(prefix_names(cs, 0) =~= Set::<Seq<char>>::empty());
    }
    let mut i: usize = 0;
    while i < n
        invariant
            i <= n,
            first_name_error(cs, Set::empty()) == first_name_error(
                cs.skip(i as int),
                prefix_names(cs, i as int),
            ),
            forall|a: int, b: int|
                0 <= a < b < i ==> cs[a].fully_qualified_component_name
                    != cs[b].fully_qualified_component_name,
            forall|a: int|
                0 <= a < i ==> (#[trigger] cs[a]).fully_qualified_component_name.len() > 0,
        decreases n - i,
    {
        let name = &components[i].fully_qualified_component_name;
        proof {
            assert(cs.skip(i as int)[0] == cs[i as int]);
            assert(cs[i as int] == components@[i as int]@);
        }
        if name.as_str().is_empty() {
            return Err(SchemaError::Component(ComponentError::InvalidName(name.clone())));
        }
        let mut dup = false;
        let mut j: usize = 0;
        while j < i
            invariant
                j <= i < n,
                dup <==> exists|a: int|
                    0 <= a < j && (#[trigger] cs[a]).fully_qualified_component_name
                        == cs[i as int].fully_qualified_component_name,
            decreases i - j,
        {
            proof {
                assert(cs[j as int] == components@[j as int]@);
            }
            if components[j].fully_qualified_component_name == *name {
                dup = true;
                proof {
                    assert(cs[j as int].fully_qualified_component_name
                        == cs[i as int].fully_qualified_component_name);
                }
            } else {
                proof {
                    assert(cs[j as int].fully_qualified_component_name
                        != cs[i as int].fully_qualified_component_name);
                }
            }
            j += 1;
        }
        if dup {
            proof {
                assert(prefix_names(cs, i as int).contains(
                    cs[i as int].fully_qualified_component_name,
                ));
            }
            return Err(SchemaError::Component(ComponentError::DuplicateName(name.clone())));
        }
        proof {
            assert(!prefix_names(cs, i as int).contains(
                cs[i as int].fully_qualified_component_name,
            ));
            assert(cs.skip(i as int).drop_first() =~= cs.skip(i as int + 1));
            assert(prefix_names(cs, i as int).insert(cs[i as int].fully_qualified_component_name)
                =~= prefix_names(cs, i as int + 1));
        }
        i += 1;
    }
    proof {
        assert(cs.skip(n as int) =~= Seq::<ComponentView>::empty());
    }
    Ok(())
}

/// The names an existing record snapshots that the new proposal no longer
/// carries: a forced re-registration deletes these components.
#[verifier::loop_isolation(false)]
fn collect_removed_components(existing: &DeploymentSchemas, components: &Vec<Component>) -> (r: Vec<
    String,
>)
    ensures
        forall|x: Seq<char>|
            #[trigger] names_contain(r@, x) <==> (snapshot_has(existing@.components, x)
                && !proposal_has(components@.map_values(|c: Component| c@), x)),
{
    let ghost cs = components@.map_values(|c: Component| c@);
    let ghost snaps = existing@.components;
    let n = components.len();
    let m = existing.components.len();
    let mut removed: Vec<String> = Vec::new();
    let mut k: usize = 0;
    proof {
        assert forall|x: Seq<char>| #[trigger] names_contain(removed@, x) implies
            snap_removed_prefix(snaps, cs, 0, x) by {}
    }
    while k < m
        invariant
            k <= m,
            forall|x: Seq<char>|
                #[trigger] names_contain(removed@, x) <==> snap_removed_prefix(
                    snaps,
                    cs,
                    k as int,
                    x,
                ),
        decreases m - k,
    {
        let snap = &existing.components[k];
        let ghost sname = snap.name@;
        proof {
            assert(snaps[k as int] == existing.components@[k as int]@);
            assert(snaps[k as int].name == sname);
        }
        let mut found = false;
        let mut j: usize = 0;
        while j < n
            invariant
                j <= n,
                found <==> exists|a: int|
                    0 <= a < j && (#[trigger] cs[a]).fully_qualified_component_name == sname,
            decreases n - j,
        {
            proof {
                assert(cs[j as int] == components@[j as int]@);
            }
            if components[j].fully_qualified_component_name == snap.name {
                found = true;
                proof {
                    assert(cs[j as int].fully_qualified_component_name == sname);
                }
            } else {
                proof {
                    assert(cs[j as int].fully_qualified_component_name != sname);
                }
            }
            j += 1;
        }
        let ghost rm_before = removed@;
        if !found {
            removed.push(snap.name.clone());
            proof {
                assert(!proposal_has(cs, sname));
                assert(removed@[rm_before.len() as int]@ == sname);
            }
        }
        proof {
            if found {
                assert(proposal_has(cs, sname));
            }
            assert forall|x: Seq<char>| #[trigger] names_contain(removed@, x) implies
                snap_removed_prefix(snaps, cs, k as int + 1, x) by {
                let t = choose|t: int| 0 <= t < removed@.len() && removed@[t]@ == x;
                if t < rm_before.len() {
                    assert(rm_before[t]@ == x);
                    assert(names_contain(rm_before, x));
                    assert(snap_removed_prefix(snaps, cs, k as int, x));
                    let u = choose|u: int|
                        0 <= u < k && snaps[u].name == x && !proposal_has(cs, x);
                    assert(snaps[u].name == x && !proposal_has(cs, x));
                } else {
                    assert(x == sname);
                    assert(snaps[k as int].name == x && !proposal_has(cs, x));
                }
            }
            assert forall|x: Seq<char>| snap_removed_prefix(snaps, cs, k as int + 1, x) implies
                #[trigger] names_contain(removed@, x) by {
                let u = choose|u: int|
                    0 <= u < k + 1 && snaps[u].name == x && !proposal_has(cs, x);
                if u < k {
                    assert(snap_removed_prefix(snaps, cs, k as int, x));
                    assert(names_contain(rm_before, x));
                    let t = choose|t: int| 0 <= t < rm_before.len() && rm_before[t]@ == x;
                    assert(removed@[t]@ == x);
                } else {
                    assert(x == sname);
                    assert(!found);
                    assert(removed@[rm_before.len() as int]@ == x);
                }
            }
        }
        k += 1;
    }
    proof {
        assert forall|x: Seq<char>| #[trigger] names_contain(removed@, x) implies (snapshot_has(
            snaps,
            x,
        ) && !proposal_has(cs, x)) by {
            let u = choose|u: int| 0 <= u < m && snaps[u].name == x && !proposal_has(cs, x);
        }
        assert forall|x: Seq<char>| (snapshot_has(snaps, x) && !proposal_has(cs, x)) implies
            #[trigger] names_contain(removed@, x) by {
            let u = choose|u: int| 0 <= u < snaps.len() && snaps[u].name == x;
            assert(snap_removed_prefix(snaps, cs, m as int, x));
        }
    }
    removed
}


/// A successful registration preserves the catalog invariant: every proposed
/// component points at the new record, which snapshots it at its new revision;
/// every survivor keeps its old deployment, which the registration left alone.
proof fn lemma_registration_preserves_wf(
    pre_si: SchemaInformation,
    post: SchemaInformation,
    requested: Option<DeploymentId>,
    metadata: DeploymentMetadataView,
    cs: Seq<ComponentView>,
)
    requires
        pre_si.wf(),
        forall|a: int, b: int|
            0 <= a < b < cs.len() ==> cs[a].fully_qualified_component_name
                != cs[b].fully_qualified_component_name,
        resolved_deployment(pre_si, requested, metadata.address) is None
            ==> !pre_si.deployments@.contains_key(
            chosen_deployment_id(pre_si, requested, metadata.address),
        ),
        post.components@ == inserted_components(
            pre_si.components@.remove_keys(
                removed_component_names(pre_si, requested, metadata.address, cs),
            ),
            pre_si.components@,
            cs,
            chosen_deployment_id(pre_si, requested, metadata.address),
        ),
        post.deployments@ == pre_si.deployments@.insert(
            chosen_deployment_id(pre_si, requested, metadata.address),
            new_deployment_record(
                pre_si.components@,
                cs,
                metadata,
                chosen_deployment_id(pre_si, requested, metadata.address),
            ),
        ),
    ensures
        post.wf(),
{
    let did = chosen_deployment_id(pre_si, requested, metadata.address);
    let removed_set = removed_component_names(pre_si, requested, metadata.address, cs);
    let base = pre_si.components@.remove_keys(removed_set);
    let pre_components = pre_si.components@;
    let record = new_deployment_record(pre_components, cs, metadata, did);
    lemma_inserted_components(base, pre_components, cs, did);
    assert(snapshots_wf(record.components)) by {
        assert forall|a: int, b: int|
            0 <= a < b < record.components.len() implies record.components[a].name
                != record.components[b].name by {
            assert(record.components[a].name == cs[a].fully_qualified_component_name);
            assert(record.components[b].name == cs[b].fully_qualified_component_name);
        }
    }
    assert(post.records_wf()) by {
        assert forall|d: u64| #[trigger] post.deployments@.contains_key(d) implies snapshots_wf(
            post.deployments@[d].components,
        ) by {
            if d == did {
            } else {
                assert(pre_si.deployments@.contains_key(d));
                assert(post.deployments@[d] == pre_si.deployments@[d]);
            }
        }
    }
    assert(post.linked()) by {
        assert forall|name: Seq<char>| #[trigger] post.components@.contains_key(name) implies {
            let c = post.components@[name];
            &&& post.deployments@.contains_key(c.location.latest_deployment)
            &&& snapshot_revision(
                post.deployments@[c.location.latest_deployment].components,
                name,
            ) == Some(c.revision)
        } by {
            if proposal_has(cs, name) {
                let idx = choose|idx: int|
                    0 <= idx < cs.len() && cs[idx].fully_qualified_component_name == name;
                assert(post.components@[name] == computed_component(pre_components, cs[idx], did));
                assert(record.components[idx].name == name);
                assert(record.components[idx].revision == post.components@[name].revision);
                lemma_snapshot_lookup(record.components, name, idx);
            } else {
                assert(base.contains_key(name));
                assert(post.components@[name] == base[name]);
                assert(pre_components.contains_key(name));
                assert(base[name] == pre_components[name]);
                assert(!removed_set.contains(name));
                let c = pre_components[name];
                assert(pre_si.deployments@.contains_key(c.location.latest_deployment));
                assert(snapshot_revision(
                    pre_si.deployments@[c.location.latest_deployment].components,
                    name,
                ) == Some(c.revision));
                if c.location.latest_deployment == did {
                    match resolved_deployment(pre_si, requested, metadata.address) {
                        Some(e) => {
                            assert(e == did);
                            assert(snapshot_has(pre_si.deployments@[did].components, name));
                            assert(removed_set.contains(name));
                        },
                        None => {
                            assert(!pre_si.deployments@.contains_key(did));
                        },
                    }
                }
                assert(c.location.latest_deployment != did);
                assert(post.deployments@[c.location.latest_deployment]
                    == pre_si.deployments@[c.location.latest_deployment]);
            }
        }
    }
}


/// Law: finalizing bumps the version exactly when the session mutated state —
/// strictly monotone across mutating sessions, and equal across no-op
/// sessions, whose catalog comes back whole.
pub proof fn lemma_version_monotonic(u: SchemaUpdater)
    requires
        u.schema_information.version < u64::MAX,
    ensures
        u.modified ==> finalized(u).version > u.schema_information.version,
        !u.modified ==> finalized(u) == u.schema_information,
{
}

/// Law: a session opened over a catalog and finalized without any mutation
/// hands the very same catalog back, version included.
pub proof fn lemma_untouched_session(s: SchemaInformation)
    ensures
        finalized(SchemaUpdater { schema_information: s, modified: false }) == s,
{
}

/// Law: after a successful registration, every component the proposal listed
/// points back at the registered deployment, whose record snapshots it at its
/// stored revision.
pub proof fn lemma_registered_components_point_at_deployment(
    si: SchemaInformation,
    requested: Option<DeploymentId>,
    metadata: DeploymentMetadataView,
    cs: Seq<ComponentView>,
    i: int,
)
    requires
        forall|a: int, b: int|
            0 <= a < b < cs.len() ==> cs[a].fully_qualified_component_name
                != cs[b].fully_qualified_component_name,
        0 <= i < cs.len(),
    ensures
        ({
            let did = chosen_deployment_id(si, requested, metadata.address);
            let post = inserted_components(
                si.components@.remove_keys(
                    removed_component_names(si, requested, metadata.address, cs),
                ),
                si.components@,
                cs,
                did,
            );
            let name = cs[i].fully_qualified_component_name;
            &&& post.contains_key(name)
            &&& post[name].location.latest_deployment == did
            &&& snapshot_revision(
                new_deployment_record(si.components@, cs, metadata, did).components,
                name,
            ) == Some(post[name].revision)
        }),
{
    let did = chosen_deployment_id(si, requested, metadata.address);
    let base = si.components@.remove_keys(
        removed_component_names(si, requested, metadata.address, cs),
    );
    let record = new_deployment_record(si.components@, cs, metadata, did);
    let name = cs[i].fully_qualified_component_name;
    lemma_inserted_components(base, si.components@, cs, did);
    assert(proposal_has(cs, name));
    assert(inserted_components(base, si.components@, cs, did)[name] == computed_component(
        si.components@,
        cs[i],
        did,
    ));
    assert(record.components[i].name == name);
    assert(snapshots_wf(record.components)) by {
        assert forall|a: int, b: int|
            0 <= a < b < record.components.len() implies record.components[a].name
                != record.components[b].name by {
            assert(record.components[a].name == cs[a].fully_qualified_component_name);
            assert(record.components[b].name == cs[b].fully_qualified_component_name);
        }
    }
    lemma_snapshot_lookup(record.components, name, i);
}

/// Law: registering a subscription and then deleting it restores the
/// subscription table; the other tables were never touched, so the catalog is
/// equivalent up to the version counter.
pub proof fn lemma_subscription_round_trip(
    subscriptions: Map<SubscriptionId, SubscriptionView>,
    id: SubscriptionId,
    v: SubscriptionView,
)
    requires
        !subscriptions.contains_key(id),
    ensures
        subscriptions.insert(id, v).remove(id) == subscriptions,
{
    assert(subscriptions.insert(id, v).remove(id) =~= subscriptions);
}

impl SchemaUpdater {
    /// End the session: hand the catalog back, with its version bumped exactly
    /// when some mutation happened. An untouched session returns the catalog
    /// unchanged, version included.
    pub fn into_inner(self) -> (r: SchemaInformation)
        requires
            self.modified ==> self.schema_information.version < u64::MAX,
        ensures
            r == finalized(self),
            self.schema_information.wf() ==> r.wf(),
    {
        let SchemaUpdater { mut schema_information, modified } = self;
        if modified {
            schema_information.version = schema_information.version + 1;
        }
        schema_information
    }


    /// Set the visibility of the named component and of each of its handlers.
    /// The session counts as mutated exactly when some visibility actually
    /// changed; an unknown name changes nothing.
    pub fn modify_component(&mut self, component_name: String, public: bool)
        ensures
            final(self).schema_information.version == old(self).schema_information.version,
            final(self).schema_information.deployments == old(self).schema_information.deployments,
            final(self).schema_information.subscriptions == old(
                self,
            ).schema_information.subscriptions,
            old(self).schema_information.components@.contains_key(component_name@) ==> {
                let c = old(self).schema_information.components@[component_name@];
                &&& final(self).schema_information.components@ == old(
                    self,
                ).schema_information.components@.insert(
                    component_name@,
                    component_with_public(c, public),
                )
                &&& final(self).modified == (old(self).modified || c.location.public != public
                    || exists|h: Seq<char>|
                        #[trigger] c.handlers.contains_key(h) && c.handlers[h].target_meta.public
                            != public)
            },
            !old(self).schema_information.components@.contains_key(component_name@) ==> *final(self)
                == *old(self),
            old(self).schema_information.wf() ==> final(self).schema_information.wf(),
    {
        let ghost pre = *self;
        let mut to_insert: Option<(ComponentSchemas, bool)> = None;
        match self.schema_information.components.get(&component_name) {
            None => {},
            Some(c) => {
                proof {
                    use_type_invariant(&c.handlers);
                    c.handlers.lemma_key_seq();
                }
                let ghost cview = pre.schema_information.components@[component_name@];
                let ghost hkeys = c.handlers.key_seq();
                let n = c.handlers.len();
                let mut new_handlers: StrMap<HandlerSchemas> = StrMap::new();
                let mut any_changed = c.location.public != public;
                let mut i: usize = 0;
                while i < n
                    invariant
                        i <= n,
                        n == hkeys.len(),
                        hkeys == c.handlers.key_seq(),
                        cview.handlers == c.handlers@,
                        forall|a: int, b: int| 0 <= a < b < n ==> hkeys[a] != hkeys[b],
                        forall|j: int|
                            0 <= j < n ==> #[trigger] c.handlers@.contains_key(hkeys[j]),
                        forall|k: Seq<char>|
                            new_handlers@.contains_key(k) <==> exists|j: int|
                                0 <= j < i && hkeys[j] == k,
                        forall|j: int|
                            0 <= j < i ==> #[trigger] new_handlers@[hkeys[j]]
                                == handler_with_public(cview.handlers[hkeys[j]], public),
                        any_changed == (cview.location.public != public || exists|j: int|
                            0 <= j < i && #[trigger] cview.handlers[hkeys[j]].target_meta.public
                                != public),
                    decreases n - i,
                {
                    let hname = c.handlers.key_at(i);
                    let h = c.handlers.val_at(i);
                    if h.target_meta.public != public {
                        any_changed = true;
                        proof {
                            assert(cview.handlers[hkeys[i as int]].target_meta.public != public);
                        }
                    }
                    let mut nh = h.clone();
                    nh.target_meta.public = public;
                    new_handlers.insert(hname.clone(), nh);
                    i += 1;
                }
                let updated = ComponentSchemas {
                    revision: c.revision,
                    ty: c.ty,
                    handlers: new_handlers,
                    location: ComponentLocation {
                        latest_deployment: c.location.latest_deployment,
                        public,
                    },
                };
                proof {
                    assert forall|k: Seq<char>| #[trigger] updated.handlers@.contains_key(k) implies
                        cview.handlers.contains_key(k) && updated.handlers@[k]
                            == handler_with_public(cview.handlers[k], public) by {
                        let j = choose|j: int| 0 <= j < i && hkeys[j] == k;
                        assert(c.handlers@.contains_key(hkeys[j]));
                    }
                    assert forall|k: Seq<char>| #[trigger] cview.handlers.contains_key(k) implies
                        updated.handlers@.contains_key(k) by {
                        let j = choose|j: int| 0 <= j < hkeys.len() && hkeys[j] == k;
                    }
                    assert(updated.handlers@ =~= cview.handlers.map_values(
                        |h: HandlerSchemasView| handler_with_public(h, public),
                    ));
                    assert(updated@ =~= component_with_public(cview, public));
                    if any_changed {
                        if cview.location.public != public {
                        } else {
                            let j = choose|j: int|
                                0 <= j < i && cview.handlers[hkeys[j]].target_meta.public != public;
                            assert(cview.handlers.contains_key(hkeys[j]));
                        }
                    } else {
                        assert forall|h: Seq<char>| #[trigger] cview.handlers.contains_key(h) implies
                            cview.handlers[h].target_meta.public == public by {
                            assert(c.handlers@.contains_key(h));
                            assert(hkeys.contains(h));
                            let j = choose|j: int| 0 <= j < hkeys.len() && hkeys[j] == h;
                            assert(hkeys[j] == h);
                            assert(!(cview.handlers[hkeys[j]].target_meta.public != public));
                        }
                    }
                }
                to_insert = Some((updated, any_changed));
            },
        }
        match to_insert {
            None => {},
            Some((updated, changed)) => {
                let ghost cview = pre.schema_information.components@[component_name@];
                self.schema_information.components.insert(component_name, updated);
                if changed {
                    self.modified = true;
                }
                proof {
                    let post = self.schema_information;
                    if pre.schema_information.wf() {
                        assert forall|name: Seq<char>| #[trigger] post.components@.contains_key(
                            name,
                        ) implies {
                            &&& post.deployments@.contains_key(
                                post.components@[name].location.latest_deployment,
                            )
                            &&& snapshot_revision(
                                post.deployments@[post.components@[name].location.latest_deployment].components,
                                name,
                            ) == Some(post.components@[name].revision)
                        } by {
                            assert(pre.schema_information.components@.contains_key(name));
                        }
                    }
                }
            },
        }
    }

    /// Delete a deployment record. Each component the record snapshotted is
    /// deleted too, unless a later deployment overwrote it — its revision then
    /// differs from the snapshot, and the component survives under that newer
    /// deployment: after this call no surviving component points at the
    /// removed deployment.
    pub fn remove_deployment(&mut self, deployment_id: DeploymentId)
        requires
            old(self).schema_information.wf(),
        ensures
            final(self).schema_information.wf(),
            final(self).schema_information.version == old(self).schema_information.version,
            final(self).schema_information.subscriptions == old(
                self,
            ).schema_information.subscriptions,
            final(self).schema_information.deployments@ == old(
                self,
            ).schema_information.deployments@.remove(deployment_id),
            old(self).schema_information.deployments@.contains_key(deployment_id) ==> {
                let snaps = old(self).schema_information.deployments@[deployment_id].components;
                let pre_components = old(self).schema_information.components@;
                &&& forall|name: Seq<char>|
                    #[trigger] final(self).schema_information.components@.contains_key(name)
                        <==> (pre_components.contains_key(name) && snapshot_revision(snaps, name)
                        != Some(pre_components[name].revision))
                &&& forall|name: Seq<char>|
                    #[trigger] final(self).schema_information.components@.contains_key(name)
                        ==> final(self).schema_information.components@[name]
                        == pre_components[name]
                &&& final(self).modified
            },
            !old(self).schema_information.deployments@.contains_key(deployment_id) ==> *final(self)
                == *old(self),
            forall|name: Seq<char>|
                #[trigger] final(self).schema_information.components@.contains_key(name)
                    ==> final(self).schema_information.components@[name].location.latest_deployment
                    != deployment_id,
    {
        let ghost pre = *self;
        let record = self.schema_information.deployments.remove(deployment_id);
        match record {
            None => {},
            Some(dep) => {
                let ghost snaps = pre.schema_information.deployments@[deployment_id].components;
                let ghost pre_components = pre.schema_information.components@;
                let DeploymentSchemas { metadata: _, components: snap_list } = dep;
                let ghost deps_after = self.schema_information.deployments;
                proof {
                    assert(snap_list@.map_values(|c: ComponentSnapshot| c@) == snaps);
                }
                let n = snap_list.len();
                let mut i: usize = 0;
                while i < n
                    invariant
                        i <= n,
                        n == snap_list@.len(),
                        snap_list@.map_values(|c: ComponentSnapshot| c@) == snaps,
                        self.schema_information.deployments == deps_after,
                        self.schema_information.version == pre.schema_information.version,
                        self.schema_information.subscriptions
                            == pre.schema_information.subscriptions,
                        self.modified == pre.modified,
                        forall|name: Seq<char>|
                            #[trigger] self.schema_information.components@.contains_key(name)
                                <==> (pre_components.contains_key(name) && !(exists|j: int|
                                0 <= j < i && snaps[j].name == name && snaps[j].revision
                                    == pre_components[name].revision)),
                        forall|name: Seq<char>|
                            #[trigger] self.schema_information.components@.contains_key(name)
                                ==> self.schema_information.components@[name]
                                == pre_components[name],
                    decreases n - i,
                {
                    let snap = &snap_list[i];
                    let mut remove_it = false;
                    match self.schema_information.components.get(&snap.name) {
                        Some(c) => {
                            if c.revision == snap.revision {
                                remove_it = true;
                            }
                        },
                        None => {},
                    }
                    if remove_it {
                        let _ = self.schema_information.components.remove(&snap.name);
                    }
                    proof {
                        assert(snaps[i as int] == snap_list@[i as int]@);
                        assert forall|name: Seq<char>|
                            #[trigger] self.schema_information.components@.contains_key(name)
                                <==> (pre_components.contains_key(name) && !(exists|j: int|
                                0 <= j < i + 1 && snaps[j].name == name && snaps[j].revision
                                    == pre_components[name].revision)) by {
                            if name == snap.name@ {
                            } else {
                            }
                        }
                    }
                    i += 1;
                }
                self.modified = true;
                proof {
                    assert(pre.schema_information.records_wf());
                    assert(pre.schema_information.deployments@.contains_key(deployment_id));
                    assert(snapshots_wf(snaps));
                    assert forall|name: Seq<char>|
                        #[trigger] self.schema_information.components@.contains_key(name)
                            <==> (pre_components.contains_key(name) && snapshot_revision(
                            snaps,
                            name,
                        ) != Some(pre_components[name].revision)) by {
                        if pre_components.contains_key(name) {
                            if exists|j: int|
                                0 <= j < n && snaps[j].name == name && snaps[j].revision
                                    == pre_components[name].revision {
                                let j = choose|j: int|
                                    0 <= j < n && snaps[j].name == name && snaps[j].revision
                                        == pre_components[name].revision;
                                lemma_snapshot_lookup(snaps, name, j);
                            } else {
                                if snapshot_revision(snaps, name) == Some(
                                    pre_components[name].revision,
                                ) {
                                    let j = choose|j: int|
                                        0 <= j < snaps.len() && snaps[j].name == name;
                                    lemma_snapshot_lookup(snaps, name, j);
                                }
                            }
                        }
                    }
                    assert forall|name: Seq<char>|
                        #[trigger] self.schema_information.components@.contains_key(name)
                            implies self.schema_information.components@[name].location.latest_deployment
                            != deployment_id by {
                        if self.schema_information.components@[name].location.latest_deployment
                            == deployment_id {
                            assert(pre.schema_information.linked());
                            assert(pre_components.contains_key(name));
                            assert(snapshot_revision(snaps, name) == Some(
                                pre_components[name].revision,
                            ));
                        }
                    }
                    assert(self.schema_information.wf()) by {
                        assert forall|name: Seq<char>|
                            #[trigger] self.schema_information.components@.contains_key(name)
                                implies {
                            let c = self.schema_information.components@[name];
                            &&& self.schema_information.deployments@.contains_key(
                                c.location.latest_deployment,
                            )
                            &&& snapshot_revision(
                                self.schema_information.deployments@[c.location.latest_deployment].components,
                                name,
                            ) == Some(c.revision)
                        } by {
                            assert(pre_components.contains_key(name));
                        }
                    }
                }
            },
        }
    }





    /// Check one proposed component against the catalog and compute its new
    /// stored schema, exactly as [`component_error`] and [`computed_component`]
    /// describe.
    #[verifier::rlimit(100)]
    #[verifier::spinoff_prover]
    #[verifier::loop_isolation(false)]
    fn check_and_compute_component(
        &self,
        component: &Component,
        deployment_id: DeploymentId,
        force: bool,
    ) -> (r: Result<ComponentSchemas, SchemaError>)
        ensures
            match r {
                Ok(cschemas) => component_error(
                    self.schema_information.components@,
                    component@,
                    force,
                ) is None && cschemas@ == computed_component(
                    self.schema_information.components@,
                    component@,
                    deployment_id,
                ),
                Err(e) => component_error(self.schema_information.components@, component@, force)
                    == Some(e@),
            },
    {
        let ghost cv = component@;
        let ghost pre_components = self.schema_information.components@;
        let component_type = component.component_type;
        proof {
            assert(cv.handlers == component.handlers@.map_values(|h: Handler| h@));
            assert(cv.handlers.skip(0) =~= cv.handlers);
        }
        let mut discovered: Vec<DiscoveredHandlerMetadata> = Vec::new();
        let hn = component.handlers.len();
        let mut j: usize = 0;
        while j < hn
            invariant
                j <= hn,
                first_handler_error(cv.handlers) == first_handler_error(cv.handlers.skip(j as int)),
                discovered@.len() == j,
                forall|t: int|
                    0 <= t < j ==> discovered_handler_of(cv.component_type, cv.handlers[t]) == Some(
                        (#[trigger] discovered@[t])@,
                    ),
            decreases hn - j,
        {
            proof {
                assert(cv.handlers.skip(j as int)[0] == cv.handlers[j as int]);
                assert(cv.handlers.skip(j as int).drop_first() =~= cv.handlers.skip(j as int + 1));
                assert(component.handlers@[j as int]@ == cv.handlers[j as int]);
            }
            match DiscoveredHandlerMetadata::from_schema(component_type, &component.handlers[j]) {
                Ok(m) => {
                    proof {
                        assert(handler_error(cv.handlers[j as int]) is None);
                    }
                    discovered.push(m);
                },
                Err(e) => {
                    proof {
                        assert(first_handler_error(cv.handlers) == Some(e@));
                        assert(component_error(pre_components, cv, force) == Some(e@));
                    }
                    return Err(SchemaError::Component(e));
                },
            }
            j += 1;
        }
        proof {
            assert(cv.handlers.skip(hn as int) =~= Seq::<HandlerView>::empty());
            assert(first_handler_error(cv.handlers) is None);
            assert(discovered@.map_values(|h: DiscoveredHandlerMetadata| h@)
                =~= discovered_handlers_of(cv));
        }
        let new_handlers = DiscoveredHandlerMetadata::compute_handlers(component_type, discovered);
        let ghost new_map = handlers_map_of(cv.component_type, discovered_handlers_of(cv));
        proof {
            assert(new_handlers@ == new_map);
        }
        let name_ref = &component.fully_qualified_component_name;
        let revision: u64;
        let public: bool;
        match self.schema_information.components.get(name_ref) {
            Some(existing_component) => {
                let ghost ex = pre_components[cv.fully_qualified_component_name];
                proof {
                    assert(existing_component@ == ex);
                    use_type_invariant(&existing_component.handlers);
                    existing_component.handlers.lemma_key_seq();
                }
                let ghost ekeys = existing_component.handlers.key_seq();
                let mut removed_handlers: Vec<String> = Vec::new();
                let em = existing_component.handlers.len();
                let mut k: usize = 0;
                proof {
                    assert forall|x: Seq<char>| #[trigger] names_contain(
                        removed_handlers@,
                        x,
                    ) implies missing_key_prefix(ekeys, new_map, 0, x) by {}
                }
                while k < em
                    invariant
                        k <= em,
                        forall|x: Seq<char>|
                            #[trigger] names_contain(removed_handlers@, x) <==> missing_key_prefix(
                                ekeys,
                                new_map,
                                k as int,
                                x,
                            ),
                    decreases em - k,
                {
                    let hk = existing_component.handlers.key_at(k);
                    let ghost rm_before = removed_handlers@;
                    if !new_handlers.contains_key(hk) {
                        removed_handlers.push(hk.clone());
                        proof {
                            assert(removed_handlers@[rm_before.len() as int]@ == ekeys[k as int]);
                        }
                    }
                    proof {
                        assert forall|x: Seq<char>| #[trigger] names_contain(
                            removed_handlers@,
                            x,
                        ) implies missing_key_prefix(ekeys, new_map, k as int + 1, x) by {
                            let t = choose|t: int|
                                0 <= t < removed_handlers@.len() && removed_handlers@[t]@ == x;
                            if t < rm_before.len() {
                                assert(rm_before[t]@ == x);
                                assert(names_contain(rm_before, x));
                                assert(missing_key_prefix(ekeys, new_map, k as int, x));
                                let u = choose|u: int|
                                    0 <= u < k && ekeys[u] == x && !new_map.contains_key(x);
                                assert(ekeys[u] == x && !new_map.contains_key(x));
                            } else {
                                assert(ekeys[k as int] == x && !new_map.contains_key(x));
                            }
                        }
                        assert forall|x: Seq<char>|
                            missing_key_prefix(ekeys, new_map, k as int + 1, x) implies
                            #[trigger] names_contain(removed_handlers@, x) by {
                            let u = choose|u: int|
                                0 <= u < k + 1 && ekeys[u] == x && !new_map.contains_key(x);
                            if u < k {
                                assert(missing_key_prefix(ekeys, new_map, k as int, x));
                                assert(names_contain(rm_before, x));
                                let t = choose|t: int|
                                    0 <= t < rm_before.len() && rm_before[t]@ == x;
                                assert(removed_handlers@[t]@ == x);
                            } else {
                                assert(removed_handlers@[rm_before.len() as int]@ == x);
                            }
                        }
                    }
                    k += 1;
                }
                let any_removed = removed_handlers.len() > 0;
                proof {
                    if any_removed {
                        let x = removed_handlers@[0]@;
                        assert(names_contain(removed_handlers@, x));
                        let u = choose|u: int|
                            0 <= u < em && ekeys[u] == x && !new_map.contains_key(x);
                        assert(ex.handlers.contains_key(x) && !new_map.contains_key(x));
                    } else {
                        assert forall|h: Seq<char>| #[trigger]
                            ex.handlers.contains_key(h) && !new_map.contains_key(h) implies false by {
                            assert(ekeys.contains(h));
                            let u = choose|u: int| 0 <= u < ekeys.len() && ekeys[u] == h;
                            assert(missing_key_prefix(ekeys, new_map, em as int, h));
                            assert(names_contain(removed_handlers@, h));
                        }
                    }
                }
                if any_removed && !force {
                    proof {
                        assert(Set::new(|x: Seq<char>| names_contain(removed_handlers@, x))
                            =~= ex.handlers.dom().difference(new_map.dom())) by {
                            assert forall|x: Seq<char>| #[trigger] names_contain(
                                removed_handlers@,
                                x,
                            ) implies ex.handlers.dom().difference(new_map.dom()).contains(x) by {
                                let u = choose|u: int|
                                    0 <= u < em && ekeys[u] == x && !new_map.contains_key(x);
                                assert(ex.handlers.contains_key(x));
                            }
                            assert forall|x: Seq<char>|
                                ex.handlers.dom().difference(new_map.dom()).contains(x) implies
                                #[trigger] names_contain(removed_handlers@, x) by {
                                assert(ex.handlers.contains_key(x));
                                assert(ekeys.contains(x));
                                let u = choose|u: int| 0 <= u < ekeys.len() && ekeys[u] == x;
                                assert(missing_key_prefix(ekeys, new_map, em as int, x));
                            }
                        }
                        assert(component_error(pre_components, cv, force) == Some(
                            SchemaErrorView::RemovedHandlers(
                                cv.fully_qualified_component_name,
                                ex.handlers.dom().difference(new_map.dom()),
                            ),
                        ));
                    }
                    return Err(
                        SchemaError::Component(
                            ComponentError::RemovedHandlers(name_ref.clone(), removed_handlers),
                        ),
                    );
                }
                if existing_component.ty != component_type && !force {
                    proof {
                        assert(component_error(pre_components, cv, force) == Some(
                            SchemaErrorView::DifferentType(cv.fully_qualified_component_name),
                        ));
                    }
                    return Err(
                        SchemaError::Component(ComponentError::DifferentType(name_ref.clone())),
                    );
                }
                proof {
                    assert(component_error(pre_components, cv, force) is None);
                }
                revision = existing_component.revision.wrapping_add(1);
                public = existing_component.location.public;
                proof {
                    assert(revision == wrap_inc(ex.revision));
                }
            },
            None => {
                revision = 1;
                public = true;
                proof {
                    assert(component_error(pre_components, cv, force) is None);
                }
            },
        }
        let r = ComponentSchemas {
            revision,
            ty: component_type,
            handlers: new_handlers,
            location: ComponentLocation { latest_deployment: deployment_id, public },
        };
        proof {
            assert(r@ =~= computed_component(pre_components, cv, deployment_id));
        }
        Ok(r)
    }

    /// Delete every component the list names; nothing else changes.
    #[verifier::loop_isolation(false)]
    fn remove_components(&mut self, names: &Vec<String>)
        ensures
            forall|x: Seq<char>|
                #[trigger] final(self).schema_information.components@.contains_key(x) <==> (old(
                    self,
                ).schema_information.components@.contains_key(x) && !names_contain(names@, x)),
            forall|x: Seq<char>|
                #[trigger] final(self).schema_information.components@.contains_key(x)
                    ==> final(self).schema_information.components@[x] == old(
                    self,
                ).schema_information.components@[x],
            final(self).schema_information.deployments == old(self).schema_information.deployments,
            final(self).schema_information.subscriptions == old(
                self,
            ).schema_information.subscriptions,
            final(self).schema_information.version == old(self).schema_information.version,
            final(self).modified == old(self).modified,
    {
        let ghost pre_components = self.schema_information.components@;
        let total = names.len();
        let mut t: usize = 0;
        proof {
            assert(names@.take(0) =~= Seq::<String>::empty());
        }
        while t < total
            invariant
                t <= total,
                forall|x: Seq<char>|
                    #[trigger] self.schema_information.components@.contains_key(x) <==> (
                    pre_components.contains_key(x) && !names_contain(names@.take(t as int), x)),
                forall|x: Seq<char>|
                    #[trigger] self.schema_information.components@.contains_key(x)
                        ==> self.schema_information.components@[x] == pre_components[x],
                self.schema_information.deployments == old(self).schema_information.deployments,
                self.schema_information.subscriptions == old(self).schema_information.subscriptions,
                self.schema_information.version == old(self).schema_information.version,
                self.modified == old(self).modified,
            decreases total - t,
        {
            let _ = self.schema_information.components.remove(&names[t]);
            proof {
                assert forall|x: Seq<char>|
                    #[trigger] self.schema_information.components@.contains_key(x) implies (
                pre_components.contains_key(x) && !names_contain(names@.take(t as int + 1), x)) by {
                    if names_contain(names@.take(t as int + 1), x) {
                        let u = choose|u: int|
                            0 <= u < t + 1 && (#[trigger] names@.take(t as int + 1)[u])@ == x;
                        if u < t {
                            assert(names@.take(t as int)[u]@ == x);
                            assert(names_contain(names@.take(t as int), x));
                        } else {
                            assert(x == names@[t as int]@);
                        }
                    }
                }
                assert forall|x: Seq<char>|
                    (pre_components.contains_key(x) && !names_contain(
                        names@.take(t as int + 1),
                        x,
                    )) implies #[trigger] self.schema_information.components@.contains_key(x) by {
                    if names_contain(names@.take(t as int), x) {
                        let u = choose|u: int|
                            0 <= u < t && (#[trigger] names@.take(t as int)[u])@ == x;
                        assert(names@.take(t as int + 1)[u]@ == x);
                        assert(names_contain(names@.take(t as int + 1), x));
                    }
                    assert(x != names@[t as int]@) by {
                        if x == names@[t as int]@ {
                            assert(names@.take(t as int + 1)[t as int]@ == x);
                            assert(names_contain(names@.take(t as int + 1), x));
                        }
                    }
                }
            }
            t += 1;
        }
        proof {
            assert(names@.take(total as int) =~= names@);
        }
    }

    /// Write each pair's schema under its name, in order, and hand back one
    /// snapshot per pair at its new revision; nothing else changes.
    #[verifier::loop_isolation(false)]
    fn install_components(&mut self, additions: Vec<(String, ComponentSchemas)>) -> (snapshots: Vec<
        ComponentSnapshot,
    >)
        ensures
            final(self).schema_information.components@ == pairs_inserted(
                old(self).schema_information.components@,
                additions@,
            ),
            snapshots@.len() == additions@.len(),
            forall|t: int|
                0 <= t < additions@.len() ==> (#[trigger] snapshots@[t])@
                    == (ComponentSnapshotView {
                    name: additions@[t].0@,
                    revision: additions@[t].1@.revision,
                }),
            final(self).schema_information.deployments == old(self).schema_information.deployments,
            final(self).schema_information.subscriptions == old(
                self,
            ).schema_information.subscriptions,
            final(self).schema_information.version == old(self).schema_information.version,
            final(self).modified == old(self).modified,
    {
        let ghost add0 = additions@;
        let ghost base = self.schema_information.components@;
        let mut additions = additions;
        let mut snapshots: Vec<ComponentSnapshot> = Vec::new();
        let ghost mut kk: int = 0;
        proof {
            assert(additions@ =~= add0.skip(0));
            assert(pairs_inserted(base, add0.take(0)) =~= base);
        }
        while additions.len() > 0
            invariant
                0 <= kk <= add0.len(),
                additions@ == add0.skip(kk),
                self.schema_information.components@ == pairs_inserted(base, add0.take(kk)),
                snapshots@.len() == kk,
                forall|t: int|
                    0 <= t < kk ==> (#[trigger] snapshots@[t])@ == (ComponentSnapshotView {
                        name: add0[t].0@,
                        revision: add0[t].1@.revision,
                    }),
                self.schema_information.deployments == old(self).schema_information.deployments,
                self.schema_information.subscriptions == old(self).schema_information.subscriptions,
                self.schema_information.version == old(self).schema_information.version,
                self.modified == old(self).modified,
            decreases additions@.len(),
        {
            proof {
                assert(add0.skip(kk)[0] == add0[kk]);
            }
            let (name, cschemas) = additions.remove(0);
            let ghost csview = cschemas@;
            proof {
                assert((name, cschemas) == add0[kk]);
            }
            let snap_entry = ComponentSnapshot { name: name.clone(), revision: cschemas.revision };
            let ghost snaps_before = snapshots@;
            snapshots.push(snap_entry);
            self.schema_information.components.insert(name, cschemas);
            proof {
                assert(additions@ =~= add0.skip(kk + 1));
                assert(add0.take(kk + 1).drop_last() =~= add0.take(kk));
                assert(add0.take(kk + 1).last() == add0[kk]);
                assert(self.schema_information.components@ == pairs_inserted(
                    base,
                    add0.take(kk + 1),
                ));
                kk = kk + 1;
            }
        }
        proof {
            assert(add0.skip(kk).len() == 0);
            assert(kk == add0.len());
            assert(add0.take(kk) =~= add0);
        }
        snapshots
    }


    /// Register a deployment: validate the proposed component names, resolve
    /// any existing deployment by requested identifier or endpoint, check each
    /// proposed component against the catalog, and commit the new component
    /// schemas, the deletions a forced re-registration implies, and the new
    /// deployment record — or return the first error met, mutating nothing.
    /// [`add_deployment_error`] names the error; on success the identifier is
    /// [`chosen_deployment_id`] and the new tables are [`inserted_components`]
    /// and [`new_deployment_record`].
    #[verifier::rlimit(100)]
    #[verifier::spinoff_prover]
    #[verifier::loop_isolation(false)]
    pub fn add_deployment(
        &mut self,
        requested_deployment_id: Option<DeploymentId>,
        deployment_metadata: DeploymentMetadata,
        components: Vec<Component>,
        force: bool,
    ) -> (r: Result<DeploymentId, SchemaError>)
        requires
            old(self).schema_information.wf(),
            requested_deployment_id is None ==> !old(
                self,
            ).schema_information.deployments@.contains_key(u64::MAX),
        ensures
            ({
                let si = old(self).schema_information;
                let cs = components@.map_values(|c: Component| c@);
                let err = add_deployment_error(
                    si,
                    requested_deployment_id,
                    deployment_metadata@,
                    cs,
                    force,
                );
                match r {
                    Ok(did) => {
                        &&& err is None
                        &&& did == chosen_deployment_id(
                            si,
                            requested_deployment_id,
                            deployment_metadata@.address,
                        )
                        &&& final(self).schema_information.components@ == inserted_components(
                            si.components@.remove_keys(
                                removed_component_names(
                                    si,
                                    requested_deployment_id,
                                    deployment_metadata@.address,
                                    cs,
                                ),
                            ),
                            si.components@,
                            cs,
                            did,
                        )
                        &&& final(self).schema_information.deployments@ == si.deployments@.insert(
                            did,
                            new_deployment_record(si.components@, cs, deployment_metadata@, did),
                        )
                        &&& final(self).schema_information.subscriptions == si.subscriptions
                        &&& final(self).schema_information.version == si.version
                        &&& final(self).modified
                    },
                    Err(e) => err == Some(e@) && *final(self) == *old(self),
                }
            }),
            final(self).schema_information.wf(),
    {
        let ghost pre_full = *self;
        let ghost pre_si = self.schema_information;
        let ghost cs = components@.map_values(|c: Component| c@);
        let ghost addr = deployment_metadata@.address;
        let n = components.len();

        // Step one: every proposed name is nonempty and appears once.
        match check_component_names(&components) {
            Ok(()) => {},
            Err(e) => {
                return Err(e);
            },
        }

        // Step two: resolve an existing deployment by identifier or endpoint.
        let resolved: Option<DeploymentId> = match requested_deployment_id {
            Some(id) => {
                if self.schema_information.deployments.contains_key(id) {
                    Some(id)
                } else {
                    self.schema_information.find_existing_deployment_by_endpoint(
                        &deployment_metadata.address,
                    )
                }
            },
            None => self.schema_information.find_existing_deployment_by_endpoint(
                &deployment_metadata.address,
            ),
        };
        proof {
            assert(resolved == resolved_deployment(pre_si, requested_deployment_id, addr));
        }

        // Step three: settle the identifier; a forced reuse marks the
        // components the old record names and the proposal no longer does.
        let mut components_to_remove: Vec<String> = Vec::new();
        let deployment_id: DeploymentId;
        match resolved {
            Some(existing_id) => {
                match requested_deployment_id {
                    Some(rq) => {
                        if rq != existing_id {
                            return Err(
                                SchemaError::Deployment(
                                    DeploymentError::IncorrectId {
                                        requested: rq,
                                        existing: existing_id,
                                    },
                                ),
                            );
                        }
                    },
                    None => {},
                }
                if !force {
                    return Err(SchemaError::Override(Overridden::Deployment(existing_id)));
                }
                deployment_id = existing_id;
                proof {
                    lemma_first_deployment_props(
                        pre_si.deployments@,
                        pre_si.deployments.key_seq(),
                        addr,
                    );
                    assert(pre_si.deployments@.contains_key(existing_id));
                }
                match self.schema_information.deployments.get(existing_id) {
                    None => {
                        proof {
                            assert(false);
                        }
                    },
                    Some(existing) => {
                        proof {
                            assert(existing@ == pre_si.deployments@[existing_id as u64]);
                        }
                        components_to_remove = collect_removed_components(existing, &components);
                    },
                }
            },
            None => {
                deployment_id = match requested_deployment_id {
                    Some(id) => id,
                    None => self.schema_information.fresh_deployment_id(),
                };
                proof {
                    assert(!pre_si.deployments@.contains_key(deployment_id));
                }
            },
        }
        let ghost removed_set = removed_component_names(pre_si, requested_deployment_id, addr, cs);
        proof {
            assert(deployment_id == chosen_deployment_id(pre_si, requested_deployment_id, addr));
            assert forall|x: Seq<char>|
                #[trigger] names_contain(components_to_remove@, x) <==> removed_set.contains(
                x,
            ) by {
                match resolved_deployment(pre_si, requested_deployment_id, addr) {
                    Some(d) => {},
                    None => {},
                }
            }
        }

        // Step four: compute each proposed component's new schema, with its
        // checks against any existing component of the same name.
        let mut components_to_add: Vec<(String, ComponentSchemas)> = Vec::new();
        proof {
            assert(cs.skip(0) =~= cs);
        }
        let mut i: usize = 0;
        while i < n
            invariant
                i <= n,
                first_component_error(pre_si.components@, cs, force) == first_component_error(
                    pre_si.components@,
                    cs.skip(i as int),
                    force,
                ),
                components_to_add@.len() == i,
                forall|t: int|
                    0 <= t < i ==> (#[trigger] components_to_add@[t]).0@
                        == cs[t].fully_qualified_component_name,
                forall|t: int|
                    0 <= t < i ==> (#[trigger] components_to_add@[t]).1@ == computed_component(
                        pre_si.components@,
                        cs[t],
                        deployment_id,
                    ),
            decreases n - i,
        {
            let component = &components[i];
            proof {
                assert(cs.skip(i as int)[0] == cs[i as int]);
                assert(cs[i as int] == components@[i as int]@);
            }
            match self.check_and_compute_component(component, deployment_id, force) {
                Ok(cschemas) => {
                    proof {
                        assert(component_error(pre_si.components@, cs[i as int], force) is None);
                        assert(cs.skip(i as int).drop_first() =~= cs.skip(i as int + 1));
                    }
                    components_to_add.push(
                        (component.fully_qualified_component_name.clone(), cschemas),
                    );
                },
                Err(e) => {
                    proof {
                        assert(component_error(pre_si.components@, cs[i as int], force) == Some(
                            e@,
                        ));
                        assert(first_component_error(pre_si.components@, cs, force) == Some(e@));
                        assert(add_deployment_error(
                            pre_si,
                            requested_deployment_id,
                            deployment_metadata@,
                            cs,
                            force,
                        ) == Some(e@));
                    }
                    return Err(e);
                },
            }
            i += 1;
        }
        proof {
            assert(cs.skip(n as int) =~= Seq::<ComponentView>::empty());
            assert(first_component_error(pre_si.components@, cs, force) is None);
            assert(add_deployment_error(
                pre_si,
                requested_deployment_id,
                deployment_metadata@,
                cs,
                force,
            ) is None);
        }

        // Step five: commit — deletions first, then the new component schemas
        // and the deployment record.
        self.remove_components(&components_to_remove);
        proof {
            assert(self.schema_information.components@ =~= pre_si.components@.remove_keys(
                removed_set,
            ));
        }
        let ghost base = self.schema_information.components@;
        let ghost add0 = components_to_add@;
        let snapshots = self.install_components(components_to_add);
        proof {
            lemma_pairs_inserted_matches(base, pre_si.components@, cs, add0, deployment_id);
        }
        let ghost record = new_deployment_record(
            pre_si.components@,
            cs,
            deployment_metadata@,
            deployment_id,
        );
        let new_record_exec = DeploymentSchemas {
            metadata: deployment_metadata,
            components: snapshots,
        };
        proof {
            assert(new_record_exec@.components =~= record.components) by {
                assert forall|t: int|
                    0 <= t < cs.len() implies new_record_exec@.components[t]
                        == record.components[t] by {
                    assert(snapshots@[t]@ == (ComponentSnapshotView {
                        name: add0[t].0@,
                        revision: add0[t].1@.revision,
                    }));
                    assert(record.components[t] == snapshot_of(
                        pre_si.components@,
                        cs[t],
                        deployment_id,
                    ));
                }
            }
            assert(new_record_exec@ =~= record);
        }
        self.schema_information.deployments.insert(deployment_id, new_record_exec);
        self.modified = true;
        proof {
            assert(self.schema_information.deployments@ == pre_si.deployments@.insert(
                deployment_id,
                record,
            ));
            lemma_registration_preserves_wf(
                pre_si,
                self.schema_information,
                requested_deployment_id,
                deployment_metadata@,
                cs,
            );
        }
        Ok(deployment_id)
    }

    /// The subscription these locators denote against the current catalog, or
    /// the first error met, exactly as [`built_subscription`] describes.
    pub fn build_subscription(
        &self,
        id: SubscriptionId,
        source: ResourceUri,
        sink: ResourceUri,
        metadata: Vec<(String, String)>,
    ) -> (r: Result<Subscription, SchemaError>)
        ensures
            ({
                let built = built_subscription(
                    self.schema_information.components@,
                    id,
                    source@,
                    sink@,
                    metadata@.map_values(|e: (String, String)| (e.0@, e.1@)),
                );
                match r {
                    Ok(sub) => built == Ok::<SubscriptionView, SchemaErrorView>(sub@),
                    Err(e) => built == Err::<SubscriptionView, SchemaErrorView>(e@),
                }
            }),
    {
        let kafka = String::from_str("kafka");
        proof {
            reveal_strlit("kafka");
            assert(kafka@ =~= kafka_scheme());
        }
        if !(source.scheme == kafka) {
            return Err(SchemaError::Subscription(SubscriptionError::InvalidSourceScheme(source)));
        }
        let cluster = match &source.authority {
            Some(a) => a.clone(),
            None => {
                return Err(
                    SchemaError::Subscription(SubscriptionError::InvalidKafkaSourceAuthority(source)),
                );
            },
        };
        let topic = tail_string(source.path.as_str());
        let component_word = String::from_str("component");
        proof {
            reveal_strlit("component");
            assert(component_word@ =~= component_scheme());
        }
        if !(sink.scheme == component_word) {
            return Err(SchemaError::Subscription(SubscriptionError::InvalidSinkScheme(sink)));
        }
        let component_name = match &sink.authority {
            Some(a) => a.clone(),
            None => {
                return Err(
                    SchemaError::Subscription(
                        SubscriptionError::InvalidComponentSinkAuthority(sink),
                    ),
                );
            },
        };
        let handler = tail_string(sink.path.as_str());
        let receiver_ty: EventReceiverComponentType;
        match self.schema_information.components.get(&component_name) {
            None => {
                return Err(SchemaError::Subscription(SubscriptionError::SinkComponentNotFound(sink)));
            },
            Some(component) => {
                if !component.handlers.contains_key(&handler) {
                    return Err(
                        SchemaError::Subscription(SubscriptionError::SinkComponentNotFound(sink)),
                    );
                }
                receiver_ty = match component.ty {
                    ComponentType::VirtualObject => EventReceiverComponentType::VirtualObject {
                        ordering_key_is_key: false,
                    },
                    ComponentType::Service => EventReceiverComponentType::Service,
                };
            },
        }
        Ok(
            Subscription::new(
                id,
                Source::Kafka {
                    cluster,
                    topic,
                    ordering_key_format: OrderingKeyFormat::ConsumerGroupTopicPartition,
                },
                Sink::Component { name: component_name, handler, ty: receiver_ty },
                metadata,
            ),
        )
    }

    /// Register a subscription. The identifier defaults to zero when absent;
    /// an identifier already in use is an override error. The locators are
    /// parsed as [`built_subscription`] describes, the candidate then passes
    /// through the caller's validator, whose verdict decides between a
    /// validation error and insertion of whatever subscription it returned.
    pub fn add_subscription<V: SubscriptionValidator>(
        &mut self,
        id: Option<SubscriptionId>,
        source: ResourceUri,
        sink: ResourceUri,
        metadata: Option<Vec<(String, String)>>,
        validator: &V,
    ) -> (r: Result<SubscriptionId, SchemaError>)
        ensures
            ({
                let idv = if id is Some {
                    id->0
                } else {
                    0
                };
                let mdv = match metadata {
                    Some(m) => m@.map_values(|e: (String, String)| (e.0@, e.1@)),
                    None => Seq::<(Seq<char>, Seq<char>)>::empty(),
                };
                let built = built_subscription(
                    old(self).schema_information.components@,
                    idv,
                    source@,
                    sink@,
                    mdv,
                );
                match r {
                    Ok(rid) => {
                        &&& rid == idv
                        &&& !old(self).schema_information.subscriptions@.contains_key(idv)
                        &&& built is Ok
                        &&& final(self).schema_information.subscriptions@ == old(
                            self,
                        ).schema_information.subscriptions@.insert(
                            idv,
                            final(self).schema_information.subscriptions@[idv],
                        )
                        &&& final(self).modified
                        &&& final(self).schema_information.components == old(
                            self,
                        ).schema_information.components
                        &&& final(self).schema_information.deployments == old(
                            self,
                        ).schema_information.deployments
                        &&& final(self).schema_information.version == old(
                            self,
                        ).schema_information.version
                    },
                    Err(e) => {
                        &&& *final(self) == *old(self)
                        &&& if old(self).schema_information.subscriptions@.contains_key(idv) {
                            e@ == SchemaErrorView::OverrideSubscription(idv)
                        } else {
                            match built {
                                Err(be) => e@ == be,
                                Ok(_) => e@ is Validation,
                            }
                        }
                    },
                }
            }),
            old(self).schema_information.wf() ==> final(self).schema_information.wf(),
    {
        let ghost pre = *self;
        let id_val: SubscriptionId = match id {
            Some(i) => i,
            None => 0,
        };
        if self.schema_information.subscriptions.contains_key(id_val) {
            return Err(SchemaError::Override(Overridden::Subscription(id_val)));
        }
        let md: Vec<(String, String)> = match metadata {
            Some(m) => m,
            None => {
                let empty_md: Vec<(String, String)> = Vec::new();
                proof {
                    assert(empty_md@.map_values(|e: (String, String)| (e.0@, e.1@))
                        =~= Seq::<(Seq<char>, Seq<char>)>::empty());
                }
                empty_md
            },
        };
        let candidate = match self.build_subscription(id_val, source, sink, md) {
            Ok(sub) => sub,
            Err(e) => {
                return Err(e);
            },
        };
        match validator.validate(candidate) {
            Err(message) => Err(SchemaError::Subscription(SubscriptionError::Validation(message))),
            Ok(subscription) => {
                let ghost subview = subscription@;
                self.schema_information.subscriptions.insert(id_val, subscription);
                self.modified = true;
                proof {
                    assert(self.schema_information.subscriptions@
                        == pre.schema_information.subscriptions@.insert(id_val, subview));
                }
                Ok(id_val)
            },
        }
    }

    /// Delete the subscription with this identifier; the session counts as
    /// mutated exactly when one was there.
    pub fn remove_subscription(&mut self, subscription_id: SubscriptionId)
        ensures
            final(self).schema_information.subscriptions@ == old(
                self,
            ).schema_information.subscriptions@.remove(subscription_id),
            final(self).schema_information.version == old(self).schema_information.version,
            final(self).schema_information.deployments == old(self).schema_information.deployments,
            final(self).schema_information.components == old(self).schema_information.components,
            final(self).modified == (old(self).modified || old(
                self,
            ).schema_information.subscriptions@.contains_key(subscription_id)),
            old(self).schema_information.wf() ==> final(self).schema_information.wf(),
    {
        if self.schema_information.subscriptions.remove(subscription_id).is_some() {
            self.modified = true;
        }
    }
}

} // verus!
