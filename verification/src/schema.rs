//! Data model of the schema catalog: deployments, components, handlers and
//! event subscriptions, versioned as one [`SchemaInformation`] value.
//!
//! Every type carries a mathematical view; the catalog's contracts are stated
//! over those views. The catalog invariant ties each component to the
//! deployment that registered its current revision.

use crate::id_map::IdMap;
use crate::str_map::StrMap;
use vstd::prelude::*;

verus! {

/// Identifier of a registered deployment.
pub type DeploymentId = u64;

/// Identifier of an event subscription.
pub type SubscriptionId = u64;

/// Kind of a component: a stateless service or a keyed virtual object.
#[derive(Clone, Copy, Debug, PartialEq, Eq, Structural)]
pub enum ComponentType {
    Service,
    VirtualObject,
}

/// Kind of a handler: exclusive to a virtual-object key, or shared.
#[derive(Clone, Copy, Debug, PartialEq, Eq, Structural)]
pub enum HandlerType {
    Exclusive,
    Shared,
}

impl HandlerType {
    /// Handler kind assumed when discovery names none: services expose shared
    /// handlers, virtual objects exclusive ones.
    pub open spec fn spec_default_for(component_type: ComponentType) -> HandlerType {
        match component_type {
            ComponentType::Service => HandlerType::Shared,
            ComponentType::VirtualObject => HandlerType::Exclusive,
        }
    }

    /// Executable twin of [`HandlerType::spec_default_for`].
    #[verifier::when_used_as_spec(spec_default_for)]
    pub fn default_for_component_type(component_type: ComponentType) -> (r: HandlerType)
        ensures
            r == HandlerType::spec_default_for(component_type),
    {
        match component_type {
            ComponentType::Service => HandlerType::Shared,
            ComponentType::VirtualObject => HandlerType::Exclusive,
        }
    }
}

/// Wire protocol spoken by a deployment endpoint.
#[derive(Clone, Copy, Debug, PartialEq, Eq, Structural)]
pub enum ProtocolType {
    RequestResponse,
    BidiStream,
}

/// Endpoint metadata of a deployment. Two deployments are considered to serve
/// the same endpoint exactly when their normalized addresses are equal.
#[derive(Debug)]
pub struct DeploymentMetadata {
    pub address: String,
    pub protocol_type: ProtocolType,
}

/// View of [`DeploymentMetadata`].
#[verifier::ext_equal]
pub ghost struct DeploymentMetadataView {
    pub address: Seq<char>,
    pub protocol_type: ProtocolType,
}

impl View for DeploymentMetadata {
    type V = DeploymentMetadataView;

    open spec fn view(&self) -> DeploymentMetadataView {
        DeploymentMetadataView { address: self.address@, protocol_type: self.protocol_type }
    }
}

impl Clone for DeploymentMetadata {
    fn clone(&self) -> (r: Self)
        ensures
            r@ == self@,
    {
        DeploymentMetadata { address: self.address.clone(), protocol_type: self.protocol_type }
    }
}

/// Content-type pattern accepted by a handler input: anything, a whole
/// top-level type, or one exact media type.
#[derive(Debug)]
pub enum InputContentType {
    Any,
    MimeType(String),
    MimeTypeAndSubtype(String, String),
}

/// View of [`InputContentType`].
#[verifier::ext_equal]
pub ghost enum ContentTypePattern {
    Any,
    MimeType(Seq<char>),
    MimeTypeAndSubtype(Seq<char>, Seq<char>),
}

impl View for InputContentType {
    type V = ContentTypePattern;

    open spec fn view(&self) -> ContentTypePattern {
        match self {
            InputContentType::Any => ContentTypePattern::Any,
            InputContentType::MimeType(t) => ContentTypePattern::MimeType(t@),
            InputContentType::MimeTypeAndSubtype(t, s) => ContentTypePattern::MimeTypeAndSubtype(
                t@,
                s@,
            ),
        }
    }
}

impl Clone for InputContentType {
    fn clone(&self) -> (r: Self)
        ensures
            r@ == self@,
    {
        match self {
            InputContentType::Any => InputContentType::Any,
            InputContentType::MimeType(t) => InputContentType::MimeType(t.clone()),
            InputContentType::MimeTypeAndSubtype(t, s) => InputContentType::MimeTypeAndSubtype(
                t.clone(),
                s.clone(),
            ),
        }
    }
}

/// One way an input may be accepted by a handler.
#[derive(Debug)]
pub enum InputValidationRule {
    /// Empty body without a content type.
    NoBodyAndContentType,
    /// Any body whose content type matches the pattern.
    ContentType { content_type: InputContentType },
    /// A JSON body whose content type matches the pattern.
    JsonValue { content_type: InputContentType },
}

/// View of [`InputValidationRule`].
#[verifier::ext_equal]
pub ghost enum InputValidationRuleView {
    NoBodyAndContentType,
    ContentType { content_type: ContentTypePattern },
    JsonValue { content_type: ContentTypePattern },
}

impl View for InputValidationRule {
    type V = InputValidationRuleView;

    open spec fn view(&self) -> InputValidationRuleView {
        match self {
            InputValidationRule::NoBodyAndContentType => InputValidationRuleView::NoBodyAndContentType,
            InputValidationRule::ContentType { content_type } => InputValidationRuleView::ContentType {
                content_type: content_type@,
            },
            InputValidationRule::JsonValue { content_type } => InputValidationRuleView::JsonValue {
                content_type: content_type@,
            },
        }
    }
}

impl Clone for InputValidationRule {
    fn clone(&self) -> (r: Self)
        ensures
            r@ == self@,
    {
        match self {
            InputValidationRule::NoBodyAndContentType => InputValidationRule::NoBodyAndContentType,
            InputValidationRule::ContentType { content_type } => InputValidationRule::ContentType {
                content_type: content_type.clone(),
            },
            InputValidationRule::JsonValue { content_type } => InputValidationRule::JsonValue {
                content_type: content_type.clone(),
            },
        }
    }
}

/// Input acceptance rules of a handler; a request passing any rule is valid.
#[derive(Debug)]
pub struct InputRules {
    pub input_validation_rules: Vec<InputValidationRule>,
}

/// View of [`InputRules`].
#[verifier::ext_equal]
pub ghost struct InputRulesView {
    pub input_validation_rules: Seq<InputValidationRuleView>,
}

impl View for InputRules {
    type V = InputRulesView;

    open spec fn view(&self) -> InputRulesView {
        InputRulesView {
            input_validation_rules: self.input_validation_rules@.map_values(
                |r: InputValidationRule| r@,
            ),
        }
    }
}

impl Clone for InputRules {
    fn clone(&self) -> (r: Self)
        ensures
            r@ == self@,
    {
        let mut rules: Vec<InputValidationRule> = Vec::new();
        let mut i: usize = 0;
        while i < self.input_validation_rules.len()
            invariant
                i <= self.input_validation_rules@.len(),
                rules@.len() == i,
                forall|j: int|
                    0 <= j < i ==> rules@[j]@ == #[trigger] self.input_validation_rules@[j]@,
            decreases self.input_validation_rules@.len() - i,
        {
            rules.push(self.input_validation_rules[i].clone());
            i += 1;
        }
        let r = InputRules { input_validation_rules: rules };
        proof {
            assert(r@.input_validation_rules =~= self@.input_validation_rules);
        }
        r
    }
}

/// Content type stamped on a handler's output, if any.
#[derive(Debug)]
pub enum OutputContentTypeRule {
    /// The handler sets no content type.
    NoContentType,
    /// The handler answers with this content type.
    SetContentType {
        content_type: String,
        set_content_type_if_empty: bool,
        has_json_schema: bool,
    },
}

/// View of [`OutputContentTypeRule`].
#[verifier::ext_equal]
pub ghost enum OutputContentTypeRuleView {
    NoContentType,
    SetContentType {
        content_type: Seq<char>,
        set_content_type_if_empty: bool,
        has_json_schema: bool,
    },
}

impl View for OutputContentTypeRule {
    type V = OutputContentTypeRuleView;

    open spec fn view(&self) -> OutputContentTypeRuleView {
        match self {
            OutputContentTypeRule::NoContentType => OutputContentTypeRuleView::NoContentType,
            OutputContentTypeRule::SetContentType {
                content_type,
                set_content_type_if_empty,
                has_json_schema,
            } => OutputContentTypeRuleView::SetContentType {
                content_type: content_type@,
                set_content_type_if_empty: *set_content_type_if_empty,
                has_json_schema: *has_json_schema,
            },
        }
    }
}

impl Clone for OutputContentTypeRule {
    fn clone(&self) -> (r: Self)
        ensures
            r@ == self@,
    {
        match self {
            OutputContentTypeRule::NoContentType => OutputContentTypeRule::NoContentType,
            OutputContentTypeRule::SetContentType {
                content_type,
                set_content_type_if_empty,
                has_json_schema,
            } => OutputContentTypeRule::SetContentType {
                content_type: content_type.clone(),
                set_content_type_if_empty: *set_content_type_if_empty,
                has_json_schema: *has_json_schema,
            },
        }
    }
}

/// Output rules of a handler.
#[derive(Debug)]
pub struct OutputRules {
    pub content_type_rule: OutputContentTypeRule,
}

/// View of [`OutputRules`].
#[verifier::ext_equal]
pub ghost struct OutputRulesView {
    pub content_type_rule: OutputContentTypeRuleView,
}

impl View for OutputRules {
    type V = OutputRulesView;

    open spec fn view(&self) -> OutputRulesView {
        OutputRulesView { content_type_rule: self.content_type_rule@ }
    }
}

impl Clone for OutputRules {
    fn clone(&self) -> (r: Self)
        ensures
            r@ == self@,
    {
        OutputRules { content_type_rule: self.content_type_rule.clone() }
    }
}

/// How a handler may be invoked: its visibility, the kind of component it
/// belongs to, its own kind, and its input and output rules.
#[derive(Debug)]
pub struct InvocationTargetMetadata {
    pub public: bool,
    pub component_ty: ComponentType,
    pub handler_ty: HandlerType,
    pub input_rules: InputRules,
    pub output_rules: OutputRules,
}

/// View of [`InvocationTargetMetadata`].
#[verifier::ext_equal]
pub ghost struct InvocationTargetMetadataView {
    pub public: bool,
    pub component_ty: ComponentType,
    pub handler_ty: HandlerType,
    pub input_rules: InputRulesView,
    pub output_rules: OutputRulesView,
}

impl View for InvocationTargetMetadata {
    type V = InvocationTargetMetadataView;

    open spec fn view(&self) -> InvocationTargetMetadataView {
        InvocationTargetMetadataView {
            public: self.public,
            component_ty: self.component_ty,
            handler_ty: self.handler_ty,
            input_rules: self.input_rules@,
            output_rules: self.output_rules@,
        }
    }
}

impl Clone for InvocationTargetMetadata {
    fn clone(&self) -> (r: Self)
        ensures
            r@ == self@,
    {
        InvocationTargetMetadata {
            public: self.public,
            component_ty: self.component_ty,
            handler_ty: self.handler_ty,
            input_rules: self.input_rules.clone(),
            output_rules: self.output_rules.clone(),
        }
    }
}

/// Stored schema of one handler.
#[derive(Debug)]
pub struct HandlerSchemas {
    pub target_meta: InvocationTargetMetadata,
}

/// View of [`HandlerSchemas`].
#[verifier::ext_equal]
pub ghost struct HandlerSchemasView {
    pub target_meta: InvocationTargetMetadataView,
}

impl View for HandlerSchemas {
    type V = HandlerSchemasView;

    open spec fn view(&self) -> HandlerSchemasView {
        HandlerSchemasView { target_meta: self.target_meta@ }
    }
}

impl Clone for HandlerSchemas {
    fn clone(&self) -> (r: Self)
        ensures
            r@ == self@,
    {
        HandlerSchemas { target_meta: self.target_meta.clone() }
    }
}

/// Where a component currently lives and whether it is publicly invocable.
#[derive(Clone, Copy, Debug, PartialEq, Eq, Structural)]
pub struct ComponentLocation {
    pub latest_deployment: DeploymentId,
    pub public: bool,
}

/// Stored schema of one component: its revision, kind, handlers and location.
#[derive(Debug)]
pub struct ComponentSchemas {
    pub revision: u64,
    pub ty: ComponentType,
    pub handlers: StrMap<HandlerSchemas>,
    pub location: ComponentLocation,
}

/// View of [`ComponentSchemas`].
#[verifier::ext_equal]
pub ghost struct ComponentSchemasView {
    pub revision: u64,
    pub ty: ComponentType,
    pub handlers: Map<Seq<char>, HandlerSchemasView>,
    pub location: ComponentLocation,
}

impl View for ComponentSchemas {
    type V = ComponentSchemasView;

    open spec fn view(&self) -> ComponentSchemasView {
        ComponentSchemasView {
            revision: self.revision,
            ty: self.ty,
            handlers: self.handlers@,
            location: self.location,
        }
    }
}

/// Snapshot of one component taken when a deployment record is written: its
/// name and the revision the deployment installed.
#[derive(Debug)]
pub struct ComponentSnapshot {
    pub name: String,
    pub revision: u64,
}

/// View of [`ComponentSnapshot`].
#[verifier::ext_equal]
pub ghost struct ComponentSnapshotView {
    pub name: Seq<char>,
    pub revision: u64,
}

impl View for ComponentSnapshot {
    type V = ComponentSnapshotView;

    open spec fn view(&self) -> ComponentSnapshotView {
        ComponentSnapshotView { name: self.name@, revision: self.revision }
    }
}

impl Clone for ComponentSnapshot {
    fn clone(&self) -> (r: Self)
        ensures
            r@ == self@,
    {
        ComponentSnapshot { name: self.name.clone(), revision: self.revision }
    }
}

/// Stored record of one deployment: its endpoint metadata and the snapshots of
/// the components it registered.
#[derive(Debug)]
pub struct DeploymentSchemas {
    pub metadata: DeploymentMetadata,
    pub components: Vec<ComponentSnapshot>,
}

/// View of [`DeploymentSchemas`].
#[verifier::ext_equal]
pub ghost struct DeploymentSchemasView {
    pub metadata: DeploymentMetadataView,
    pub components: Seq<ComponentSnapshotView>,
}

impl View for DeploymentSchemas {
    type V = DeploymentSchemasView;

    open spec fn view(&self) -> DeploymentSchemasView {
        DeploymentSchemasView {
            metadata: self.metadata@,
            components: self.components@.map_values(|c: ComponentSnapshot| c@),
        }
    }
}

/// Format of the ordering key derived for events of a Kafka source.
#[derive(Clone, Copy, Debug, PartialEq, Eq, Structural)]
pub enum OrderingKeyFormat {
    ConsumerGroupTopicPartition,
}

/// Event source of a subscription.
#[derive(Debug)]
pub enum Source {
    Kafka { cluster: String, topic: String, ordering_key_format: OrderingKeyFormat },
}

/// View of [`Source`].
#[verifier::ext_equal]
pub ghost enum SourceView {
    Kafka { cluster: Seq<char>, topic: Seq<char>, ordering_key_format: OrderingKeyFormat },
}

impl View for Source {
    type V = SourceView;

    open spec fn view(&self) -> SourceView {
        match self {
            Source::Kafka { cluster, topic, ordering_key_format } => SourceView::Kafka {
                cluster: cluster@,
                topic: topic@,
                ordering_key_format: *ordering_key_format,
            },
        }
    }
}

/// Kind of component an event receiver sits on.
#[derive(Clone, Copy, Debug, PartialEq, Eq, Structural)]
pub enum EventReceiverComponentType {
    VirtualObject { ordering_key_is_key: bool },
    Service,
}

/// Event sink of a subscription.
#[derive(Debug)]
pub enum Sink {
    Component { name: String, handler: String, ty: EventReceiverComponentType },
}

/// View of [`Sink`].
#[verifier::ext_equal]
pub ghost enum SinkView {
    Component { name: Seq<char>, handler: Seq<char>, ty: EventReceiverComponentType },
}

impl View for Sink {
    type V = SinkView;

    open spec fn view(&self) -> SinkView {
        match self {
            Sink::Component { name, handler, ty } => SinkView::Component {
                name: name@,
                handler: handler@,
                ty: *ty,
            },
        }
    }
}

/// A binding from an external event source to a component handler.
#[derive(Debug)]
pub struct Subscription {
    pub id: SubscriptionId,
    pub source: Source,
    pub sink: Sink,
    pub metadata: Vec<(String, String)>,
}

/// View of [`Subscription`].
#[verifier::ext_equal]
pub ghost struct SubscriptionView {
    pub id: SubscriptionId,
    pub source: SourceView,
    pub sink: SinkView,
    pub metadata: Seq<(Seq<char>, Seq<char>)>,
}

impl View for Subscription {
    type V = SubscriptionView;

    open spec fn view(&self) -> SubscriptionView {
        SubscriptionView {
            id: self.id,
            source: self.source@,
            sink: self.sink@,
            metadata: self.metadata@.map_values(|e: (String, String)| (e.0@, e.1@)),
        }
    }
}

impl Subscription {
    pub fn new(
        id: SubscriptionId,
        source: Source,
        sink: Sink,
        metadata: Vec<(String, String)>,
    ) -> (r: Self)
        ensures
            r.id == id,
            r.source == source,
            r.sink == sink,
            r.metadata == metadata,
    {
        Subscription { id, source, sink, metadata }
    }
}


/// Whether some string of the list reads `x`.
pub open spec fn names_contain(l: Seq<String>, x: Seq<char>) -> bool {
    exists|t: int| 0 <= t < l.len() && (#[trigger] l[t])@ == x
}

/// Whether the snapshot names of one deployment record are pairwise distinct.
pub open spec fn snapshots_wf(s: Seq<ComponentSnapshotView>) -> bool {
    forall|i: int, j: int| 0 <= i < j < s.len() ==> s[i].name != s[j].name
}

/// Whether a deployment record snapshots a component of this name.
pub open spec fn snapshot_has(s: Seq<ComponentSnapshotView>, name: Seq<char>) -> bool {
    exists|i: int| 0 <= i < s.len() && s[i].name == name
}

/// The revision a deployment record snapshots for this component, if any.
pub open spec fn snapshot_revision(s: Seq<ComponentSnapshotView>, name: Seq<char>) -> Option<u64> {
    if snapshot_has(s, name) {
        let i = choose|i: int| 0 <= i < s.len() && s[i].name == name;
        Some(s[i].revision)
    } else {
        None
    }
}

/// The first deployment along `keys` whose endpoint address equals `addr`.
pub open spec fn first_deployment_with_address(
    m: Map<u64, DeploymentSchemasView>,
    keys: Seq<u64>,
    addr: Seq<char>,
) -> Option<u64>
    decreases keys.len(),
{
    if keys.len() == 0 {
        None
    } else if m.contains_key(keys[0]) && m[keys[0]].metadata.address == addr {
        Some(keys[0])
    } else {
        first_deployment_with_address(m, keys.drop_first(), addr)
    }
}

/// Largest element of a sequence of identifiers, `0` for the empty sequence.
pub open spec fn seq_max(s: Seq<u64>) -> u64
    decreases s.len(),
{
    if s.len() == 0 {
        0
    } else if s.last() >= seq_max(s.drop_last()) {
        s.last()
    } else {
        seq_max(s.drop_last())
    }
}

/// Every element is bounded by the maximum.
proof fn lemma_seq_max_ge(s: Seq<u64>, i: int)
    requires
        0 <= i < s.len(),
    ensures
        s[i] <= seq_max(s),
    decreases s.len(),
{
    if i == s.len() - 1 {
    } else {
        lemma_seq_max_ge(s.drop_last(), i);
    }
}

/// A non-empty sequence contains its maximum.
proof fn lemma_seq_max_is_element(s: Seq<u64>)
    requires
        s.len() > 0,
    ensures
        s.contains(seq_max(s)),
    decreases s.len(),
{
    if s.len() == 1 {
        assert(s.drop_last().len() == 0);
        assert(seq_max(s.drop_last()) == 0);
        assert(s[0] == seq_max(s));
    } else if s.last() >= seq_max(s.drop_last()) {
        assert(s[s.len() - 1] == seq_max(s));
    } else {
        lemma_seq_max_is_element(s.drop_last());
        let i = choose|i: int| 0 <= i < s.drop_last().len() && s.drop_last()[i] == seq_max(
            s.drop_last(),
        );
        assert(s[i] == seq_max(s));
    }
}

/// The versioned catalog of deployments, components and subscriptions.
#[derive(Debug)]
pub struct SchemaInformation {
    /// Bumped exactly once per committed mutation batch.
    pub version: u64,
    pub deployments: IdMap<DeploymentSchemas>,
    pub components: StrMap<ComponentSchemas>,
    pub subscriptions: IdMap<Subscription>,
}

impl SchemaInformation {
    /// Snapshot names within every deployment record are distinct.
    pub open spec fn records_wf(self) -> bool {
        forall|d: u64| #[trigger]
            self.deployments@.contains_key(d) ==> snapshots_wf(self.deployments@[d].components)
    }

    /// Every component points to an existing deployment whose record snapshots
    /// the component at its current revision.
    pub open spec fn linked(self) -> bool {
        forall|name: Seq<char>| #[trigger] self.components@.contains_key(name) ==> {
            let c = self.components@[name];
            &&& self.deployments@.contains_key(c.location.latest_deployment)
            &&& snapshot_revision(
                self.deployments@[c.location.latest_deployment].components,
                name,
            ) == Some(c.revision)
        }
    }

    /// Catalog invariant: constructors establish it and every updater session
    /// preserves it.
    pub open spec fn wf(self) -> bool {
        &&& self.records_wf()
        &&& self.linked()
    }

    /// Current catalog version.
    pub fn version(&self) -> (r: u64)
        ensures
            r == self.version,
    {
        self.version
    }

    /// The deployment stored under `id`, if any.
    pub fn get_deployment(&self, id: DeploymentId) -> (r: Option<&DeploymentSchemas>)
        ensures
            match r {
                Some(d) => self.deployments@.contains_key(id) && d@ == self.deployments@[id],
                None => !self.deployments@.contains_key(id),
            },
    {
        self.deployments.get(id)
    }

    /// The newest schema of the component with this name, if any.
    pub fn resolve_latest_component(&self, name: &String) -> (r: Option<&ComponentSchemas>)
        ensures
            match r {
                Some(c) => self.components@.contains_key(name@) && c@ == self.components@[name@],
                None => !self.components@.contains_key(name@),
            },
    {
        self.components.get(name)
    }

    /// The deployment stored under `id`, if any; the lookup that resolves a
    /// requested identifier during registration.
    pub fn find_existing_deployment_by_id(&self, id: DeploymentId) -> (r: Option<&DeploymentSchemas>)
        ensures
            match r {
                Some(d) => self.deployments@.contains_key(id) && d@ == self.deployments@[id],
                None => !self.deployments@.contains_key(id),
            },
    {
        self.deployments.get(id)
    }

    /// The first registered deployment (in registration order) whose endpoint
    /// address equals `address`, if any.
    pub fn find_existing_deployment_by_endpoint(&self, address: &String) -> (r: Option<
        DeploymentId,
    >)
        ensures
            r == first_deployment_with_address(
                self.deployments@,
                self.deployments.key_seq(),
                address@,
            ),
    {
        proof {
            use_type_invariant(&self.deployments);
            self.deployments.lemma_key_seq();
        }
        let ghost keys = self.deployments.key_seq();
        let ghost m = self.deployments@;
        proof {
            assert(keys.skip(0) =~= keys);
        }
        let n = self.deployments.len();
        let mut i: usize = 0;
        while i < n
            invariant
                n == keys.len(),
                i <= n,
                keys == self.deployments.key_seq(),
                m == self.deployments@,
                forall|j: int| 0 <= j < keys.len() ==> #[trigger] m.contains_key(keys[j]),
                first_deployment_with_address(m, keys, address@) == first_deployment_with_address(
                    m,
                    keys.skip(i as int),
                    address@,
                ),
            decreases n - i,
        {
            let d = self.deployments.key_at(i);
            let dep = self.deployments.val_at(i);
            proof {
                assert(keys.skip(i as int)[0] == keys[i as int]);
                assert(keys.skip(i as int).drop_first() =~= keys.skip(i as int + 1));
            }
            if dep.metadata.address == *address {
                return Some(d);
            }
            i += 1;
        }
        proof {
            assert(keys.skip(n as int) =~= Seq::<u64>::empty());
        }
        None
    }

    /// An identifier no existing deployment uses: one past the largest
    /// registered identifier.
    pub fn fresh_deployment_id(&self) -> (r: DeploymentId)
        requires
            !self.deployments@.contains_key(u64::MAX),
        ensures
            r == seq_max(self.deployments.key_seq()) + 1,
            !self.deployments@.contains_key(r),
    {
        proof {
            use_type_invariant(&self.deployments);
            self.deployments.lemma_key_seq();
        }
        let ghost keys = self.deployments.key_seq();
        let n = self.deployments.len();
        let mut m: u64 = 0;
        let mut i: usize = 0;
        while i < n
            invariant
                n == keys.len(),
                i <= n,
                keys == self.deployments.key_seq(),
                m == seq_max(keys.take(i as int)),
            decreases n - i,
        {
            let k = self.deployments.key_at(i);
            proof {
                assert(keys.take(i as int + 1).drop_last() =~= keys.take(i as int));
                assert(keys.take(i as int + 1).last() == keys[i as int]);
            }
            if k > m {
                m = k;
            }
            i += 1;
        }
        proof {
            assert(keys.take(n as int) =~= keys);
            if m == u64::MAX {
                lemma_seq_max_is_element(keys);
                let j = choose|j: int| 0 <= j < keys.len() && keys[j] == seq_max(keys);
                assert(self.deployments@.contains_key(keys[j]));
            }
            if self.deployments@.contains_key((m + 1) as u64) {
                let j = choose|j: int| 0 <= j < keys.len() && keys[j] == (m + 1) as u64;
                lemma_seq_max_ge(keys, j);
            }
        }
        m + 1
    }
}

impl Default for SchemaInformation {
    /// The empty catalog at the initial version.
    fn default() -> (r: Self)
        ensures
            r.version == 1,
            r.deployments@ == Map::<u64, DeploymentSchemasView>::empty(),
            r.components@ == Map::<Seq<char>, ComponentSchemasView>::empty(),
            r.subscriptions@ == Map::<u64, SubscriptionView>::empty(),
            r.deployments.key_seq() == Seq::<u64>::empty(),
            r.wf(),
    {
        SchemaInformation {
            version: 1,
            deployments: IdMap::new(),
            components: StrMap::new(),
            subscriptions: IdMap::new(),
        }
    }
}


/// Locator of a subscription source or sink, as its scheme, authority and
/// path. Stands for a parsed URI; the admin surface parses the textual form
/// before it reaches the catalog.
#[derive(Debug, PartialEq, Eq)]
pub struct ResourceUri {
    pub scheme: String,
    pub authority: Option<String>,
    pub path: String,
}

/// View of [`ResourceUri`].
#[verifier::ext_equal]
pub ghost struct ResourceUriView {
    pub scheme: Seq<char>,
    pub authority: Option<Seq<char>>,
    pub path: Seq<char>,
}

impl View for ResourceUri {
    type V = ResourceUriView;

    open spec fn view(&self) -> ResourceUriView {
        ResourceUriView {
            scheme: self.scheme@,
            authority: match &self.authority {
                Some(a) => Some(a@),
                None => None,
            },
            path: self.path@,
        }
    }
}

impl Clone for ResourceUri {
    fn clone(&self) -> (r: Self)
        ensures
            r@ == self@,
    {
        ResourceUri {
            scheme: self.scheme.clone(),
            authority: match &self.authority {
                Some(a) => Some(a.clone()),
                None => None,
            },
            path: self.path.clone(),
        }
    }
}

/// The characters of a URI path after its leading slash; empty for an empty
/// path. Subscription sources name their topic there, sinks their handler.
pub open spec fn path_tail(p: Seq<char>) -> Seq<char> {
    if p.len() >= 1 {
        p.subrange(1, p.len() as int)
    } else {
        Seq::empty()
    }
}

} // verus!
