//! The vocabulary of the semantic graph: entities, relations and the facts about them, together
//! with the names under which each is stored.

use crate::text::same;
use vstd::prelude::*;

verus! {

/// What an entity is.
#[derive(Clone, Copy, PartialEq, Eq, Structural, Debug, PartialOrd, Ord, Hash)]
pub enum EntityKind {
    Callable,
    GraphqlArgument,
    GraphqlEnumValue,
    GraphqlField,
    GraphqlOperation,
    GraphqlType,
    GrpcOperation,
    KafkaTopic,
    Namespace,
    ProtoField,
    ProtoMethod,
    ProtoService,
    ProtoType,
    Service,
    UnityPrefab,
}

/// The kind of a GraphQL operation.
#[derive(Clone, Copy, PartialEq, Eq, Structural, Debug, PartialOrd, Ord, Hash)]
pub enum GraphqlOperationKind {
    Mutation,
    Query,
    Subscription,
}

/// The kind of a GraphQL type.
#[derive(Clone, Copy, PartialEq, Eq, Structural, Debug, PartialOrd, Ord, Hash)]
pub enum GraphqlTypeKind {
    Enum,
    Input,
    Interface,
    Object,
    Scalar,
    Union,
}

/// How many messages each side of a remote call sends.
#[derive(Clone, Copy, PartialEq, Eq, Structural, Debug, PartialOrd, Ord, Hash)]
pub enum RpcCardinality {
    BidirectionalStreaming,
    ClientStreaming,
    ServerStreaming,
    Unary,
}

/// The kind of a protobuf type.
#[derive(Clone, Copy, PartialEq, Eq, Structural, Debug, PartialOrd, Ord, Hash)]
pub enum ProtoTypeKind {
    Enum,
    Message,
}

/// What is known of an entity beyond its kind.
#[allow(inconsistent_fields)]
#[derive(Clone, Copy, PartialEq, Eq, Structural, Debug, PartialOrd, Ord, Hash)]
pub enum EntityMetadata {
    GraphqlOperation { kind: GraphqlOperationKind },
    GraphqlType { kind: GraphqlTypeKind },
    ProtoMethod { cardinality: RpcCardinality },
    ProtoType { kind: ProtoTypeKind },
}

/// A relation by which one entity is part of another.
#[derive(Clone, Copy, PartialEq, Eq, Structural, Debug, PartialOrd, Ord, Hash)]
pub enum StructuralRelation {
    Defines,
    FieldOf,
    RequestType,
    ResponseType,
}

/// A relation along which changes propagate.
#[derive(Clone, Copy, PartialEq, Eq, Structural, Debug, PartialOrd, Ord, Hash)]
pub enum DependencyRelation {
    BindsContract,
    Calls,
    CallsGraphql,
    CallsRpc,
    ConsumedBy,
    Implements,
    ImplementedBy,
    Imports,
    Publishes,
    Requires,
    ResolvedBy,
    Selects,
    Uses,
}

/// A relation between two entities.
#[derive(Clone, Copy, PartialEq, Eq, Structural, Debug, PartialOrd, Ord, Hash)]
pub enum SemanticRelation {
    Structure(StructuralRelation),
    Dependency(DependencyRelation),
}

/// How sure an observation is.
#[derive(Clone, Copy, PartialEq, Eq, Structural, Debug, PartialOrd, Ord, Hash)]
pub enum Confidence {
    Exact,
    Inferred,
}

/// Where an observation comes from.
#[derive(Clone, Copy, PartialEq, Eq, Structural, Debug, PartialOrd, Ord, Hash)]
pub enum Provenance {
    Ast,
    Compiler,
    Descriptor,
    Generated,
    UniqueNameHeuristic,
}

/// The side of a remote call that a symbol implements.
#[derive(Clone, Copy, PartialEq, Eq, Structural, Debug, PartialOrd, Ord, Hash)]
pub enum GrpcBindingRole {
    Client,
    Server,
}

/// The stored name of an entity kind.
pub open spec fn entity_kind_text(value: EntityKind) -> Seq<char> {
    match value {
        EntityKind::Callable => "callable"@,
        EntityKind::GraphqlArgument => "graphql_argument"@,
        EntityKind::GraphqlEnumValue => "graphql_enum_value"@,
        EntityKind::GraphqlField => "graphql_field"@,
        EntityKind::GraphqlOperation => "graphql_operation"@,
        EntityKind::GraphqlType => "graphql_type"@,
        EntityKind::GrpcOperation => "grpc_operation"@,
        EntityKind::KafkaTopic => "kafka_topic"@,
        EntityKind::Namespace => "namespace"@,
        EntityKind::ProtoField => "proto_field"@,
        EntityKind::ProtoMethod => "proto_method"@,
        EntityKind::ProtoService => "proto_service"@,
        EntityKind::ProtoType => "proto_type"@,
        EntityKind::Service => "service"@,
        EntityKind::UnityPrefab => "unity_prefab"@,
    }
}

/// The stored name of an entity kind.
pub fn entity_kind(value: EntityKind) -> (r: &'static str)
    ensures
        r@ == entity_kind_text(value),
{
    match value {
        EntityKind::Callable => "callable",
        EntityKind::GraphqlArgument => "graphql_argument",
        EntityKind::GraphqlEnumValue => "graphql_enum_value",
        EntityKind::GraphqlField => "graphql_field",
        EntityKind::GraphqlOperation => "graphql_operation",
        EntityKind::GraphqlType => "graphql_type",
        EntityKind::GrpcOperation => "grpc_operation",
        EntityKind::KafkaTopic => "kafka_topic",
        EntityKind::Namespace => "namespace",
        EntityKind::ProtoField => "proto_field",
        EntityKind::ProtoMethod => "proto_method",
        EntityKind::ProtoService => "proto_service",
        EntityKind::ProtoType => "proto_type",
        EntityKind::Service => "service",
        EntityKind::UnityPrefab => "unity_prefab",
    }
}

/// No two of these values share a stored name.
pub proof fn entity_kind_names_distinct(a: EntityKind, b: EntityKind)
    requires
        entity_kind_text(a) == entity_kind_text(b),
    ensures
        a == b,
{
    reveal_strlit("callable");
    reveal_strlit("graphql_argument");
    reveal_strlit("graphql_enum_value");
    reveal_strlit("graphql_field");
    reveal_strlit("graphql_operation");
    reveal_strlit("graphql_type");
    reveal_strlit("grpc_operation");
    reveal_strlit("kafka_topic");
    reveal_strlit("namespace");
    reveal_strlit("proto_field");
    reveal_strlit("proto_method");
    reveal_strlit("proto_service");
    reveal_strlit("proto_type");
    reveal_strlit("service");
    reveal_strlit("unity_prefab");
    assert("callable"@.len() == 8);
    assert("graphql_argument"@.len() == 16);
    assert("graphql_enum_value"@.len() == 18);
    assert("graphql_field"@.len() == 13);
    assert("graphql_operation"@.len() == 17);
    assert("graphql_type"@.len() == 12);
    assert("grpc_operation"@.len() == 14);
    assert("kafka_topic"@.len() == 11);
    assert("namespace"@.len() == 9);
    assert("proto_field"@.len() == 11);
    assert("proto_method"@.len() == 12);
    assert("proto_service"@.len() == 13);
    assert("proto_type"@.len() == 10);
    assert("service"@.len() == 7);
    assert("unity_prefab"@.len() == 12);
    assert("kafka_topic"@[0] != "proto_field"@[0]);
    assert("graphql_type"@[0] != "proto_method"@[0]);
    assert("graphql_type"@[0] != "unity_prefab"@[0]);
    assert("proto_method"@[0] != "unity_prefab"@[0]);
    assert("graphql_field"@[0] != "proto_service"@[0]);
}

/// The value whose stored name is given.
pub fn parse_entity_kind(value: &str) -> (r: Result<EntityKind, String>)
    ensures
        r is Ok ==> entity_kind_text(r->Ok_0) == value@,
        r is Err ==> forall|k: EntityKind| #[trigger] entity_kind_text(k) != value@,
        r is Err ==> r->Err_0@ == "unknown stored entity kind "@ + value@,
{
    if same(value, "callable") {
        return Ok(EntityKind::Callable);
    }
    if same(value, "graphql_argument") {
        return Ok(EntityKind::GraphqlArgument);
    }
    if same(value, "graphql_enum_value") {
        return Ok(EntityKind::GraphqlEnumValue);
    }
    if same(value, "graphql_field") {
        return Ok(EntityKind::GraphqlField);
    }
    if same(value, "graphql_operation") {
        return Ok(EntityKind::GraphqlOperation);
    }
    if same(value, "graphql_type") {
        return Ok(EntityKind::GraphqlType);
    }
    if same(value, "grpc_operation") {
        return Ok(EntityKind::GrpcOperation);
    }
    if same(value, "kafka_topic") {
        return Ok(EntityKind::KafkaTopic);
    }
    if same(value, "namespace") {
        return Ok(EntityKind::Namespace);
    }
    if same(value, "proto_field") {
        return Ok(EntityKind::ProtoField);
    }
    if same(value, "proto_method") {
        return Ok(EntityKind::ProtoMethod);
    }
    if same(value, "proto_service") {
        return Ok(EntityKind::ProtoService);
    }
    if same(value, "proto_type") {
        return Ok(EntityKind::ProtoType);
    }
    if same(value, "service") {
        return Ok(EntityKind::Service);
    }
    if same(value, "unity_prefab") {
        return Ok(EntityKind::UnityPrefab);
    }
    let mut message: String = "unknown stored entity kind ".to_owned();
    message.append(value);
    Err(message)
}

/// The stored name of a cardinality.
pub open spec fn rpc_cardinality_text(value: RpcCardinality) -> Seq<char> {
    match value {
        RpcCardinality::BidirectionalStreaming => "bidirectional_streaming"@,
        RpcCardinality::ClientStreaming => "client_streaming"@,
        RpcCardinality::ServerStreaming => "server_streaming"@,
        RpcCardinality::Unary => "unary"@,
    }
}

/// The stored name of a cardinality.
pub fn rpc_cardinality(value: RpcCardinality) -> (r: &'static str)
    ensures
        r@ == rpc_cardinality_text(value),
{
    match value {
        RpcCardinality::BidirectionalStreaming => "bidirectional_streaming",
        RpcCardinality::ClientStreaming => "client_streaming",
        RpcCardinality::ServerStreaming => "server_streaming",
        RpcCardinality::Unary => "unary",
    }
}

/// No two of these values share a stored name.
pub proof fn rpc_cardinality_names_distinct(a: RpcCardinality, b: RpcCardinality)
    requires
        rpc_cardinality_text(a) == rpc_cardinality_text(b),
    ensures
        a == b,
{
    reveal_strlit("bidirectional_streaming");
    reveal_strlit("client_streaming");
    reveal_strlit("server_streaming");
    reveal_strlit("unary");
    assert("bidirectional_streaming"@.len() == 23);
    assert("client_streaming"@.len() == 16);
    assert("server_streaming"@.len() == 16);
    assert("unary"@.len() == 5);
    assert("client_streaming"@[0] != "server_streaming"@[0]);
}

/// The stored name of an entity's metadata.
pub open spec fn entity_metadata_text(value: Option<EntityMetadata>) -> Seq<char> {
    match value {
        None => ""@,
        Some(EntityMetadata::GraphqlOperation { kind: GraphqlOperationKind::Mutation }) => "graphql_operation:mutation"@,
        Some(EntityMetadata::GraphqlOperation { kind: GraphqlOperationKind::Query }) => "graphql_operation:query"@,
        Some(EntityMetadata::GraphqlOperation { kind: GraphqlOperationKind::Subscription }) => "graphql_operation:subscription"@,
        Some(EntityMetadata::GraphqlType { kind: GraphqlTypeKind::Enum }) => "graphql_type:enum"@,
        Some(EntityMetadata::GraphqlType { kind: GraphqlTypeKind::Input }) => "graphql_type:input"@,
        Some(EntityMetadata::GraphqlType { kind: GraphqlTypeKind::Interface }) => "graphql_type:interface"@,
        Some(EntityMetadata::GraphqlType { kind: GraphqlTypeKind::Object }) => "graphql_type:object"@,
        Some(EntityMetadata::GraphqlType { kind: GraphqlTypeKind::Scalar }) => "graphql_type:scalar"@,
        Some(EntityMetadata::GraphqlType { kind: GraphqlTypeKind::Union }) => "graphql_type:union"@,
        Some(EntityMetadata::ProtoMethod { cardinality: RpcCardinality::BidirectionalStreaming }) => "rpc_cardinality:bidirectional_streaming"@,
        Some(EntityMetadata::ProtoMethod { cardinality: RpcCardinality::ClientStreaming }) => "rpc_cardinality:client_streaming"@,
        Some(EntityMetadata::ProtoMethod { cardinality: RpcCardinality::ServerStreaming }) => "rpc_cardinality:server_streaming"@,
        Some(EntityMetadata::ProtoMethod { cardinality: RpcCardinality::Unary }) => "rpc_cardinality:unary"@,
        Some(EntityMetadata::ProtoType { kind: ProtoTypeKind::Enum }) => "proto_type:enum"@,
        Some(EntityMetadata::ProtoType { kind: ProtoTypeKind::Message }) => "proto_type:message"@,
    }
}

/// The stored name of an entity's metadata.
pub fn entity_metadata(value: Option<EntityMetadata>) -> (r: &'static str)
    ensures
        r@ == entity_metadata_text(value),
{
    match value {
        None => "",
        Some(EntityMetadata::GraphqlOperation { kind: GraphqlOperationKind::Mutation }) => "graphql_operation:mutation",
        Some(EntityMetadata::GraphqlOperation { kind: GraphqlOperationKind::Query }) => "graphql_operation:query",
        Some(EntityMetadata::GraphqlOperation { kind: GraphqlOperationKind::Subscription }) => "graphql_operation:subscription",
        Some(EntityMetadata::GraphqlType { kind: GraphqlTypeKind::Enum }) => "graphql_type:enum",
        Some(EntityMetadata::GraphqlType { kind: GraphqlTypeKind::Input }) => "graphql_type:input",
        Some(EntityMetadata::GraphqlType { kind: GraphqlTypeKind::Interface }) => "graphql_type:interface",
        Some(EntityMetadata::GraphqlType { kind: GraphqlTypeKind::Object }) => "graphql_type:object",
        Some(EntityMetadata::GraphqlType { kind: GraphqlTypeKind::Scalar }) => "graphql_type:scalar",
        Some(EntityMetadata::GraphqlType { kind: GraphqlTypeKind::Union }) => "graphql_type:union",
        Some(EntityMetadata::ProtoMethod { cardinality: RpcCardinality::BidirectionalStreaming }) => "rpc_cardinality:bidirectional_streaming",
        Some(EntityMetadata::ProtoMethod { cardinality: RpcCardinality::ClientStreaming }) => "rpc_cardinality:client_streaming",
        Some(EntityMetadata::ProtoMethod { cardinality: RpcCardinality::ServerStreaming }) => "rpc_cardinality:server_streaming",
        Some(EntityMetadata::ProtoMethod { cardinality: RpcCardinality::Unary }) => "rpc_cardinality:unary",
        Some(EntityMetadata::ProtoType { kind: ProtoTypeKind::Enum }) => "proto_type:enum",
        Some(EntityMetadata::ProtoType { kind: ProtoTypeKind::Message }) => "proto_type:message",
    }
}

/// No two of these values share a stored name.
pub proof fn entity_metadata_names_distinct(a: Option<EntityMetadata>, b: Option<EntityMetadata>)
    requires
        entity_metadata_text(a) == entity_metadata_text(b),
    ensures
        a == b,
{
    reveal_strlit("");
    reveal_strlit("graphql_operation:mutation");
    reveal_strlit("graphql_operation:query");
    reveal_strlit("graphql_operation:subscription");
    reveal_strlit("graphql_type:enum");
    reveal_strlit("graphql_type:input");
    reveal_strlit("graphql_type:interface");
    reveal_strlit("graphql_type:object");
    reveal_strlit("graphql_type:scalar");
    reveal_strlit("graphql_type:union");
    reveal_strlit("rpc_cardinality:bidirectional_streaming");
    reveal_strlit("rpc_cardinality:client_streaming");
    reveal_strlit("rpc_cardinality:server_streaming");
    reveal_strlit("rpc_cardinality:unary");
    reveal_strlit("proto_type:enum");
    reveal_strlit("proto_type:message");
    assert(""@.len() == 0);
    assert("graphql_operation:mutation"@.len() == 26);
    assert("graphql_operation:query"@.len() == 23);
    assert("graphql_operation:subscription"@.len() == 30);
    assert("graphql_type:enum"@.len() == 17);
    assert("graphql_type:input"@.len() == 18);
    assert("graphql_type:interface"@.len() == 22);
    assert("graphql_type:object"@.len() == 19);
    assert("graphql_type:scalar"@.len() == 19);
    assert("graphql_type:union"@.len() == 18);
    assert("rpc_cardinality:bidirectional_streaming"@.len() == 39);
    assert("rpc_cardinality:client_streaming"@.len() == 32);
    assert("rpc_cardinality:server_streaming"@.len() == 32);
    assert("rpc_cardinality:unary"@.len() == 21);
    assert("proto_type:enum"@.len() == 15);
    assert("proto_type:message"@.len() == 18);
    assert("graphql_type:input"@[13] != "graphql_type:union"@[13]);
    assert("graphql_type:input"@[0] != "proto_type:message"@[0]);
    assert("graphql_type:union"@[0] != "proto_type:message"@[0]);
    assert("graphql_type:object"@[13] != "graphql_type:scalar"@[13]);
    assert("rpc_cardinality:client_streaming"@[16] != "rpc_cardinality:server_streaming"@[16]);
}

/// The value whose stored name is given.
pub fn parse_entity_metadata(value: &str) -> (r: Result<Option<EntityMetadata>, String>)
    ensures
        r is Ok ==> entity_metadata_text(r->Ok_0) == value@,
        r is Err ==> forall|k: Option<EntityMetadata>| #[trigger] entity_metadata_text(k) != value@,
        r is Err ==> r->Err_0@ == "unknown stored entity metadata "@ + value@,
{
    if same(value, "") {
        return Ok(None);
    }
    if same(value, "graphql_operation:mutation") {
        return Ok(Some(EntityMetadata::GraphqlOperation { kind: GraphqlOperationKind::Mutation }));
    }
    if same(value, "graphql_operation:query") {
        return Ok(Some(EntityMetadata::GraphqlOperation { kind: GraphqlOperationKind::Query }));
    }
    if same(value, "graphql_operation:subscription") {
        return Ok(Some(EntityMetadata::GraphqlOperation { kind: GraphqlOperationKind::Subscription }));
    }
    if same(value, "graphql_type:enum") {
        return Ok(Some(EntityMetadata::GraphqlType { kind: GraphqlTypeKind::Enum }));
    }
    if same(value, "graphql_type:input") {
        return Ok(Some(EntityMetadata::GraphqlType { kind: GraphqlTypeKind::Input }));
    }
    if same(value, "graphql_type:interface") {
        return Ok(Some(EntityMetadata::GraphqlType { kind: GraphqlTypeKind::Interface }));
    }
    if same(value, "graphql_type:object") {
        return Ok(Some(EntityMetadata::GraphqlType { kind: GraphqlTypeKind::Object }));
    }
    if same(value, "graphql_type:scalar") {
        return Ok(Some(EntityMetadata::GraphqlType { kind: GraphqlTypeKind::Scalar }));
    }
    if same(value, "graphql_type:union") {
        return Ok(Some(EntityMetadata::GraphqlType { kind: GraphqlTypeKind::Union }));
    }
    if same(value, "rpc_cardinality:bidirectional_streaming") {
        return Ok(Some(EntityMetadata::ProtoMethod { cardinality: RpcCardinality::BidirectionalStreaming }));
    }
    if same(value, "rpc_cardinality:client_streaming") {
        return Ok(Some(EntityMetadata::ProtoMethod { cardinality: RpcCardinality::ClientStreaming }));
    }
    if same(value, "rpc_cardinality:server_streaming") {
        return Ok(Some(EntityMetadata::ProtoMethod { cardinality: RpcCardinality::ServerStreaming }));
    }
    if same(value, "rpc_cardinality:unary") {
        return Ok(Some(EntityMetadata::ProtoMethod { cardinality: RpcCardinality::Unary }));
    }
    if same(value, "proto_type:enum") {
        return Ok(Some(EntityMetadata::ProtoType { kind: ProtoTypeKind::Enum }));
    }
    if same(value, "proto_type:message") {
        return Ok(Some(EntityMetadata::ProtoType { kind: ProtoTypeKind::Message }));
    }
    let mut message: String = "unknown stored entity metadata ".to_owned();
    message.append(value);
    Err(message)
}

/// The stored name of a relation.
pub open spec fn relation_name_text(value: SemanticRelation) -> Seq<char> {
    match value {
        SemanticRelation::Structure(StructuralRelation::Defines) => "defines"@,
        SemanticRelation::Structure(StructuralRelation::FieldOf) => "field_of"@,
        SemanticRelation::Structure(StructuralRelation::RequestType) => "request_type"@,
        SemanticRelation::Structure(StructuralRelation::ResponseType) => "response_type"@,
        SemanticRelation::Dependency(DependencyRelation::BindsContract) => "binds_contract"@,
        SemanticRelation::Dependency(DependencyRelation::Calls) => "calls"@,
        SemanticRelation::Dependency(DependencyRelation::CallsGraphql) => "calls_graphql"@,
        SemanticRelation::Dependency(DependencyRelation::CallsRpc) => "calls_rpc"@,
        SemanticRelation::Dependency(DependencyRelation::ConsumedBy) => "consumed_by"@,
        SemanticRelation::Dependency(DependencyRelation::Implements) => "implements"@,
        SemanticRelation::Dependency(DependencyRelation::ImplementedBy) => "implemented_by"@,
        SemanticRelation::Dependency(DependencyRelation::Imports) => "imports"@,
        SemanticRelation::Dependency(DependencyRelation::Publishes) => "publishes"@,
        SemanticRelation::Dependency(DependencyRelation::Requires) => "requires"@,
        SemanticRelation::Dependency(DependencyRelation::ResolvedBy) => "resolved_by"@,
        SemanticRelation::Dependency(DependencyRelation::Selects) => "selects"@,
        SemanticRelation::Dependency(DependencyRelation::Uses) => "uses"@,
    }
}

/// The stored name of a relation.
pub fn relation_name(value: SemanticRelation) -> (r: &'static str)
    ensures
        r@ == relation_name_text(value),
{
    match value {
        SemanticRelation::Structure(StructuralRelation::Defines) => "defines",
        SemanticRelation::Structure(StructuralRelation::FieldOf) => "field_of",
        SemanticRelation::Structure(StructuralRelation::RequestType) => "request_type",
        SemanticRelation::Structure(StructuralRelation::ResponseType) => "response_type",
        SemanticRelation::Dependency(DependencyRelation::BindsContract) => "binds_contract",
        SemanticRelation::Dependency(DependencyRelation::Calls) => "calls",
        SemanticRelation::Dependency(DependencyRelation::CallsGraphql) => "calls_graphql",
        SemanticRelation::Dependency(DependencyRelation::CallsRpc) => "calls_rpc",
        SemanticRelation::Dependency(DependencyRelation::ConsumedBy) => "consumed_by",
        SemanticRelation::Dependency(DependencyRelation::Implements) => "implements",
        SemanticRelation::Dependency(DependencyRelation::ImplementedBy) => "implemented_by",
        SemanticRelation::Dependency(DependencyRelation::Imports) => "imports",
        SemanticRelation::Dependency(DependencyRelation::Publishes) => "publishes",
        SemanticRelation::Dependency(DependencyRelation::Requires) => "requires",
        SemanticRelation::Dependency(DependencyRelation::ResolvedBy) => "resolved_by",
        SemanticRelation::Dependency(DependencyRelation::Selects) => "selects",
        SemanticRelation::Dependency(DependencyRelation::Uses) => "uses",
    }
}

/// No two of these values share a stored name.
pub proof fn relation_names_distinct(a: SemanticRelation, b: SemanticRelation)
    requires
        relation_name_text(a) == relation_name_text(b),
    ensures
        a == b,
{
    reveal_strlit("defines");
    reveal_strlit("field_of");
    reveal_strlit("request_type");
    reveal_strlit("response_type");
    reveal_strlit("binds_contract");
    reveal_strlit("calls");
    reveal_strlit("calls_graphql");
    reveal_strlit("calls_rpc");
    reveal_strlit("consumed_by");
    reveal_strlit("implements");
    reveal_strlit("implemented_by");
    reveal_strlit("imports");
    reveal_strlit("publishes");
    reveal_strlit("requires");
    reveal_strlit("resolved_by");
    reveal_strlit("selects");
    reveal_strlit("uses");
    assert("defines"@.len() == 7);
    assert("field_of"@.len() == 8);
    assert("request_type"@.len() == 12);
    assert("response_type"@.len() == 13);
    assert("binds_contract"@.len() == 14);
    assert("calls"@.len() == 5);
    assert("calls_graphql"@.len() == 13);
    assert("calls_rpc"@.len() == 9);
    assert("consumed_by"@.len() == 11);
    assert("implements"@.len() == 10);
    assert("implemented_by"@.len() == 14);
    assert("imports"@.len() == 7);
    assert("publishes"@.len() == 9);
    assert("requires"@.len() == 8);
    assert("resolved_by"@.len() == 11);
    assert("selects"@.len() == 7);
    assert("uses"@.len() == 4);
    assert("defines"@[0] != "imports"@[0]);
    assert("defines"@[0] != "selects"@[0]);
    assert("imports"@[0] != "selects"@[0]);
    assert("field_of"@[0] != "requires"@[0]);
    assert("calls_rpc"@[0] != "publishes"@[0]);
    assert("consumed_by"@[0] != "resolved_by"@[0]);
    assert("response_type"@[0] != "calls_graphql"@[0]);
    assert("binds_contract"@[0] != "implemented_by"@[0]);
}

/// The value whose stored name is given.
pub fn parse_relation(value: &str) -> (r: Result<SemanticRelation, String>)
    ensures
        r is Ok ==> relation_name_text(r->Ok_0) == value@,
        r is Err ==> forall|k: SemanticRelation| #[trigger] relation_name_text(k) != value@,
        r is Err ==> r->Err_0@ == "unknown stored semantic relation "@ + value@,
{
    if same(value, "defines") {
        return Ok(SemanticRelation::Structure(StructuralRelation::Defines));
    }
    if same(value, "field_of") {
        return Ok(SemanticRelation::Structure(StructuralRelation::FieldOf));
    }
    if same(value, "request_type") {
        return Ok(SemanticRelation::Structure(StructuralRelation::RequestType));
    }
    if same(value, "response_type") {
        return Ok(SemanticRelation::Structure(StructuralRelation::ResponseType));
    }
    if same(value, "binds_contract") {
        return Ok(SemanticRelation::Dependency(DependencyRelation::BindsContract));
    }
    if same(value, "calls") {
        return Ok(SemanticRelation::Dependency(DependencyRelation::Calls));
    }
    if same(value, "calls_graphql") {
        return Ok(SemanticRelation::Dependency(DependencyRelation::CallsGraphql));
    }
    if same(value, "calls_rpc") {
        return Ok(SemanticRelation::Dependency(DependencyRelation::CallsRpc));
    }
    if same(value, "consumed_by") {
        return Ok(SemanticRelation::Dependency(DependencyRelation::ConsumedBy));
    }
    if same(value, "implements") {
        return Ok(SemanticRelation::Dependency(DependencyRelation::Implements));
    }
    if same(value, "implemented_by") {
        return Ok(SemanticRelation::Dependency(DependencyRelation::ImplementedBy));
    }
    if same(value, "imports") {
        return Ok(SemanticRelation::Dependency(DependencyRelation::Imports));
    }
    if same(value, "publishes") {
        return Ok(SemanticRelation::Dependency(DependencyRelation::Publishes));
    }
    if same(value, "requires") {
        return Ok(SemanticRelation::Dependency(DependencyRelation::Requires));
    }
    if same(value, "resolved_by") {
        return Ok(SemanticRelation::Dependency(DependencyRelation::ResolvedBy));
    }
    if same(value, "selects") {
        return Ok(SemanticRelation::Dependency(DependencyRelation::Selects));
    }
    if same(value, "uses") {
        return Ok(SemanticRelation::Dependency(DependencyRelation::Uses));
    }
    let mut message: String = "unknown stored semantic relation ".to_owned();
    message.append(value);
    Err(message)
}

/// The stored name of a provenance.
pub open spec fn provenance_name_text(value: Provenance) -> Seq<char> {
    match value {
        Provenance::Ast => "ast"@,
        Provenance::Compiler => "compiler"@,
        Provenance::Descriptor => "descriptor"@,
        Provenance::Generated => "generated"@,
        Provenance::UniqueNameHeuristic => "unique_name_heuristic"@,
    }
}

/// The stored name of a provenance.
pub fn provenance_name(value: Provenance) -> (r: &'static str)
    ensures
        r@ == provenance_name_text(value),
{
    match value {
        Provenance::Ast => "ast",
        Provenance::Compiler => "compiler",
        Provenance::Descriptor => "descriptor",
        Provenance::Generated => "generated",
        Provenance::UniqueNameHeuristic => "unique_name_heuristic",
    }
}

/// No two of these values share a stored name.
pub proof fn provenance_names_distinct(a: Provenance, b: Provenance)
    requires
        provenance_name_text(a) == provenance_name_text(b),
    ensures
        a == b,
{
    reveal_strlit("ast");
    reveal_strlit("compiler");
    reveal_strlit("descriptor");
    reveal_strlit("generated");
    reveal_strlit("unique_name_heuristic");
    assert("ast"@.len() == 3);
    assert("compiler"@.len() == 8);
    assert("descriptor"@.len() == 10);
    assert("generated"@.len() == 9);
    assert("unique_name_heuristic"@.len() == 21);
}

/// The value whose stored name is given.
pub fn parse_provenance(value: &str) -> (r: Result<Provenance, String>)
    ensures
        r is Ok ==> provenance_name_text(r->Ok_0) == value@,
        r is Err ==> forall|k: Provenance| #[trigger] provenance_name_text(k) != value@,
        r is Err ==> r->Err_0@ == "unknown stored provenance "@ + value@,
{
    if same(value, "ast") {
        return Ok(Provenance::Ast);
    }
    if same(value, "compiler") {
        return Ok(Provenance::Compiler);
    }
    if same(value, "descriptor") {
        return Ok(Provenance::Descriptor);
    }
    if same(value, "generated") {
        return Ok(Provenance::Generated);
    }
    if same(value, "unique_name_heuristic") {
        return Ok(Provenance::UniqueNameHeuristic);
    }
    let mut message: String = "unknown stored provenance ".to_owned();
    message.append(value);
    Err(message)
}

/// The stored name of a binding role.
pub open spec fn grpc_role_name_text(value: GrpcBindingRole) -> Seq<char> {
    match value {
        GrpcBindingRole::Client => "client"@,
        GrpcBindingRole::Server => "server"@,
    }
}

/// The stored name of a binding role.
pub fn grpc_role_name(value: GrpcBindingRole) -> (r: &'static str)
    ensures
        r@ == grpc_role_name_text(value),
{
    match value {
        GrpcBindingRole::Client => "client",
        GrpcBindingRole::Server => "server",
    }
}

/// Reading a stored entity kind undoes writing it.
pub proof fn entity_kind_round_trip(kind: EntityKind, read: EntityKind)
    requires
        entity_kind_text(read) == entity_kind_text(kind),
    ensures
        read == kind,
{
    entity_kind_names_distinct(read, kind);
}

/// The bits of the score 1.0.
pub const EXACT_BITS: u64 = 0x3FF0_0000_0000_0000;

/// The bits of the score 0.6.
pub const INFERRED_BITS: u64 = 0x3FE3_3333_3333_3333;

/// The bits of the floating-point score of a confidence.
pub open spec fn confidence_score(value: Confidence) -> u64 {
    match value {
        Confidence::Exact => EXACT_BITS,
        Confidence::Inferred => INFERRED_BITS,
    }
}

/// The bits of the floating-point score of a confidence.
pub fn confidence_bits(value: Confidence) -> (r: u64)
    ensures
        r == confidence_score(value),
{
    match value {
        Confidence::Exact => EXACT_BITS,
        Confidence::Inferred => INFERRED_BITS,
    }
}

/// The confidence whose score has the given bits, or the bits where there is none.
pub fn parse_confidence(bits: u64) -> (r: Result<Confidence, u64>)
    ensures
        r is Ok ==> confidence_score(r->Ok_0) == bits,
        r is Err ==> r->Err_0 == bits && bits != EXACT_BITS && bits != INFERRED_BITS,
{
    if bits == EXACT_BITS {
        Ok(Confidence::Exact)
    } else if bits == INFERRED_BITS {
        Ok(Confidence::Inferred)
    } else {
        Err(bits)
    }
}

/// The dependency that a relation states, if it is one.
pub open spec fn is_dependency(relation: SemanticRelation) -> bool {
    relation is Dependency
}

/// An entity with what is known of it.
#[derive(Debug)]
pub struct EntityFact {
    pub id: String,
    pub kind: EntityKind,
    pub metadata: Option<EntityMetadata>,
}

/// The content of an [`EntityFact`].
pub ghost struct EntityModel {
    pub id: Seq<char>,
    pub kind: EntityKind,
    pub metadata: Option<EntityMetadata>,
}

impl View for EntityFact {
    type V = EntityModel;

    open spec fn view(&self) -> EntityModel {
        EntityModel { id: self.id@, kind: self.kind, metadata: self.metadata }
    }
}

impl EntityFact {
    /// A copy with the same content.
    pub fn copy(&self) -> (r: EntityFact)
        ensures
            r@ == self@,
    {
        EntityFact { id: self.id.clone(), kind: self.kind, metadata: self.metadata }
    }
}

/// One observed relation between two entities.
#[derive(Debug)]
pub struct Observation {
    pub from: String,
    pub relation: SemanticRelation,
    pub to: String,
    pub evidence: String,
    pub confidence: Confidence,
    pub provenance: Provenance,
}

/// The content of an [`Observation`].
pub ghost struct ObservationModel {
    pub from: Seq<char>,
    pub relation: SemanticRelation,
    pub to: Seq<char>,
    pub evidence: Seq<char>,
    pub confidence: Confidence,
    pub provenance: Provenance,
}

impl View for Observation {
    type V = ObservationModel;

    open spec fn view(&self) -> ObservationModel {
        ObservationModel {
            from: self.from@,
            relation: self.relation,
            to: self.to@,
            evidence: self.evidence@,
            confidence: self.confidence,
            provenance: self.provenance,
        }
    }
}

/// What a syntax tree shows directly: exact, and read off the tree.
pub open spec fn observed(from: Seq<char>, relation: SemanticRelation, to: Seq<char>, evidence: Seq<char>) -> ObservationModel {
    ObservationModel { from, relation, to, evidence, confidence: Confidence::Exact, provenance: Provenance::Ast }
}

impl Observation {
    /// An exact structural observation read off a syntax tree.
    pub fn structural(from: &str, relation: StructuralRelation, to: &str, evidence: &str) -> (r: Observation)
        ensures
            r@ == observed(from@, SemanticRelation::Structure(relation), to@, evidence@),
    {
        Observation {
            from: from.to_owned(),
            relation: SemanticRelation::Structure(relation),
            to: to.to_owned(),
            evidence: evidence.to_owned(),
            confidence: Confidence::Exact,
            provenance: Provenance::Ast,
        }
    }

    /// An exact dependency read off a syntax tree.
    pub fn dependency(from: &str, relation: DependencyRelation, to: &str, evidence: &str) -> (r: Observation)
        ensures
            r@ == observed(from@, SemanticRelation::Dependency(relation), to@, evidence@),
    {
        Observation {
            from: from.to_owned(),
            relation: SemanticRelation::Dependency(relation),
            to: to.to_owned(),
            evidence: evidence.to_owned(),
            confidence: Confidence::Exact,
            provenance: Provenance::Ast,
        }
    }

    /// A copy with the same content.
    pub fn copy(&self) -> (r: Observation)
        ensures
            r@ == self@,
    {
        Observation {
            from: self.from.clone(),
            relation: self.relation,
            to: self.to.clone(),
            evidence: self.evidence.clone(),
            confidence: self.confidence,
            provenance: self.provenance,
        }
    }
}

/// How grave a diagnostic is.
#[derive(Clone, Copy, PartialEq, Eq, Structural, Debug)]
pub enum AnalysisDiagnosticSeverity {
    KnownLimitation,
    Warning,
}

/// What a severity is called where it is stored.
pub open spec fn severity_text(severity: AnalysisDiagnosticSeverity) -> Seq<char> {
    match severity {
        AnalysisDiagnosticSeverity::KnownLimitation => "known_limitation"@,
        AnalysisDiagnosticSeverity::Warning => "warning"@,
    }
}

/// What a severity is called where it is stored.
pub fn severity_name(severity: AnalysisDiagnosticSeverity) -> (r: &'static str)
    ensures
        r@ == severity_text(severity),
{
    match severity {
        AnalysisDiagnosticSeverity::KnownLimitation => "known_limitation",
        AnalysisDiagnosticSeverity::Warning => "warning",
    }
}

/// The severity that a stored name stands for.
pub open spec fn severity_of(name: Option<Seq<char>>) -> Option<AnalysisDiagnosticSeverity> {
    if name == Some("known_limitation"@) {
        Some(AnalysisDiagnosticSeverity::KnownLimitation)
    } else if name == Some("warning"@) {
        Some(AnalysisDiagnosticSeverity::Warning)
    } else {
        None
    }
}

/// The severity that a stored name stands for.
pub fn parse_severity(name: Option<&str>) -> (r: Option<AnalysisDiagnosticSeverity>)
    ensures
        r == severity_of(crate::ids::borrowed_text(name)),
{
    match name {
        Some(name) => if same(name, "known_limitation") {
            Some(AnalysisDiagnosticSeverity::KnownLimitation)
        } else if same(name, "warning") {
            Some(AnalysisDiagnosticSeverity::Warning)
        } else {
            None
        },
        None => None,
    }
}

/// A severity is read back as it was stored.
pub proof fn severity_round_trip(severity: AnalysisDiagnosticSeverity)
    ensures
        severity_of(Some(severity_text(severity))) == Some(severity),
{
    reveal_strlit("known_limitation");
    reveal_strlit("warning");
    assert("known_limitation"@.len() == 16);
    assert("warning"@.len() == 7);
}

/// Something that an analysis could not do in full.
#[derive(Debug)]
pub struct AnalysisDiagnostic {
    pub code: String,
    pub severity: AnalysisDiagnosticSeverity,
    pub path: String,
    pub line: Option<u32>,
    pub detail: Option<String>,
}

/// The content of an [`AnalysisDiagnostic`].
pub ghost struct DiagnosticModel {
    pub code: Seq<char>,
    pub severity: AnalysisDiagnosticSeverity,
    pub path: Seq<char>,
    pub line: Option<u32>,
    pub detail: Option<Seq<char>>,
}

/// The characters of an optional text.
pub open spec fn optional_text(text: Option<String>) -> Option<Seq<char>> {
    match text {
        Some(s) => Some(s@),
        None => None,
    }
}

impl View for AnalysisDiagnostic {
    type V = DiagnosticModel;

    open spec fn view(&self) -> DiagnosticModel {
        DiagnosticModel {
            code: self.code@,
            severity: self.severity,
            path: self.path@,
            line: self.line,
            detail: optional_text(self.detail),
        }
    }
}

} // verus!
