//! The syntax tree of a GraphQL document, held as plain values.
//!
//! The tree stands in one list, each element followed by what it holds. An element is a child
//! of the nearest element before it that is one level less deep.

use crate::text::same;
use vstd::prelude::*;
use vstd::utf8::encode_utf8;

verus! {

/// One element of a syntax tree as the parser names it.
#[derive(Debug)]
pub struct RawElement {
    pub kind: String,
    pub depth: usize,
    pub start: u32,
    pub token: Option<String>,
}

/// An error that the parser recovered from.
#[derive(Debug)]
pub struct SyntaxError {
    pub offset: usize,
    pub message: String,
}

/// What the parser makes of a document.
#[derive(Debug)]
pub struct RawDocument {
    pub elements: Vec<RawElement>,
    pub errors: Vec<SyntaxError>,
}

/// The content of a [`RawElement`].
pub ghost struct RawModel {
    pub kind: Seq<char>,
    pub depth: nat,
    pub start: nat,
    pub token: Option<Seq<char>>,
}

/// The content of a [`SyntaxError`].
pub ghost struct SyntaxErrorModel {
    pub offset: nat,
    pub message: Seq<char>,
}

/// The content of a [`RawDocument`].
pub ghost struct RawDocumentModel {
    pub elements: Seq<RawModel>,
    pub errors: Seq<SyntaxErrorModel>,
}

impl View for RawElement {
    type V = RawModel;

    open spec fn view(&self) -> RawModel {
        RawModel {
            kind: self.kind@,
            depth: self.depth as nat,
            start: self.start as nat,
            token: crate::domain::optional_text(self.token),
        }
    }
}

impl View for SyntaxError {
    type V = SyntaxErrorModel;

    open spec fn view(&self) -> SyntaxErrorModel {
        SyntaxErrorModel { offset: self.offset as nat, message: self.message@ }
    }
}

impl View for RawDocument {
    type V = RawDocumentModel;

    open spec fn view(&self) -> RawDocumentModel {
        RawDocumentModel {
            elements: self.elements@.map_values(|x: RawElement| x@),
            errors: self.errors@.map_values(|x: SyntaxError| x@),
        }
    }
}

/// The syntax tree and the errors that `apollo_parser` finds in a text.
pub uninterp spec fn parsed_document(source: Seq<char>) -> RawDocumentModel;

/// Parses a document with `apollo_parser::Parser::parse`, with the parser's default limits.
///
/// The result is the parser's tree, element by element in document order (the root first), and
/// its errors in the order in which it lists them; both depend on the text alone. The parser
/// counts offsets in 32 bits, so the text must not be longer than that.
#[verifier::external_body]
pub(crate) fn parse_document(source: &str) -> (r: RawDocument)
    requires
        encode_utf8(source@).len() <= u32::MAX,
    ensures
        r@ == parsed_document(source@),
{
    let tree = apollo_parser::Parser::new(source).parse();
    let root = apollo_parser::cst::CstNode::syntax(&tree.document()).clone();
    let elements = root.descendants_with_tokens().map(|element| RawElement {
        kind: format!("{:?}", element.kind()),
        depth: element.parent().map_or(0, |parent| parent.ancestors().count()),
        start: u32::from(element.text_range().start()),
        token: element.as_token().map(|token| token.text().to_string()),
    });
    let errors = tree.errors().map(|error| SyntaxError {
        offset: error.index(),
        message: error.message().to_string(),
    });
    RawDocument { elements: elements.collect(), errors: errors.collect() }
}

/// The kinds of syntax elements that the analysis tells apart.
#[derive(Clone, Copy, PartialEq, Eq, Structural, Debug)]
pub enum NodeKind {
    Name,
    NamedType,
    ListType,
    NonNullType,
    OperationType,
    RootOperationTypeDefinition,
    SchemaDefinition,
    SchemaExtension,
    FragmentDefinition,
    FragmentName,
    TypeCondition,
    SelectionSet,
    Field,
    FragmentSpread,
    InlineFragment,
    ObjectTypeDefinition,
    ObjectTypeExtension,
    InterfaceTypeDefinition,
    InterfaceTypeExtension,
    UnionTypeDefinition,
    UnionTypeExtension,
    EnumTypeDefinition,
    EnumTypeExtension,
    InputObjectTypeDefinition,
    InputObjectTypeExtension,
    ScalarTypeDefinition,
    ScalarTypeExtension,
    OperationDefinition,
    VariableDefinitions,
    VariableDefinition,
    Variable,
    Directives,
    Directive,
    Arguments,
    Argument,
    FieldsDefinition,
    FieldDefinition,
    ArgumentsDefinition,
    InputValueDefinition,
    InputFieldsDefinition,
    ImplementsInterfaces,
    UnionMemberTypes,
    EnumValuesDefinition,
    EnumValueDefinition,
    EnumValue,
    StringValue,
    FloatValue,
    IntValue,
    BooleanValue,
    NullValue,
    ListValue,
    ObjectValue,
    MutationKeyword,
    SubscriptionKeyword,
    Other,
}

/// The kind that the parser's name for it stands for.
pub open spec fn node_kind_of(name: Seq<char>) -> NodeKind {
    if name == "NAME"@ {
        NodeKind::Name
    } else if name == "NAMED_TYPE"@ {
        NodeKind::NamedType
    } else if name == "LIST_TYPE"@ {
        NodeKind::ListType
    } else if name == "NON_NULL_TYPE"@ {
        NodeKind::NonNullType
    } else if name == "OPERATION_TYPE"@ {
        NodeKind::OperationType
    } else if name == "ROOT_OPERATION_TYPE_DEFINITION"@ {
        NodeKind::RootOperationTypeDefinition
    } else if name == "SCHEMA_DEFINITION"@ {
        NodeKind::SchemaDefinition
    } else if name == "SCHEMA_EXTENSION"@ {
        NodeKind::SchemaExtension
    } else if name == "FRAGMENT_DEFINITION"@ {
        NodeKind::FragmentDefinition
    } else if name == "FRAGMENT_NAME"@ {
        NodeKind::FragmentName
    } else if name == "TYPE_CONDITION"@ {
        NodeKind::TypeCondition
    } else if name == "SELECTION_SET"@ {
        NodeKind::SelectionSet
    } else if name == "FIELD"@ {
        NodeKind::Field
    } else if name == "FRAGMENT_SPREAD"@ {
        NodeKind::FragmentSpread
    } else if name == "INLINE_FRAGMENT"@ {
        NodeKind::InlineFragment
    } else if name == "OBJECT_TYPE_DEFINITION"@ {
        NodeKind::ObjectTypeDefinition
    } else if name == "OBJECT_TYPE_EXTENSION"@ {
        NodeKind::ObjectTypeExtension
    } else if name == "INTERFACE_TYPE_DEFINITION"@ {
        NodeKind::InterfaceTypeDefinition
    } else if name == "INTERFACE_TYPE_EXTENSION"@ {
        NodeKind::InterfaceTypeExtension
    } else if name == "UNION_TYPE_DEFINITION"@ {
        NodeKind::UnionTypeDefinition
    } else if name == "UNION_TYPE_EXTENSION"@ {
        NodeKind::UnionTypeExtension
    } else if name == "ENUM_TYPE_DEFINITION"@ {
        NodeKind::EnumTypeDefinition
    } else if name == "ENUM_TYPE_EXTENSION"@ {
        NodeKind::EnumTypeExtension
    } else if name == "INPUT_OBJECT_TYPE_DEFINITION"@ {
        NodeKind::InputObjectTypeDefinition
    } else if name == "INPUT_OBJECT_TYPE_EXTENSION"@ {
        NodeKind::InputObjectTypeExtension
    } else if name == "SCALAR_TYPE_DEFINITION"@ {
        NodeKind::ScalarTypeDefinition
    } else if name == "SCALAR_TYPE_EXTENSION"@ {
        NodeKind::ScalarTypeExtension
    } else if name == "OPERATION_DEFINITION"@ {
        NodeKind::OperationDefinition
    } else if name == "VARIABLE_DEFINITIONS"@ {
        NodeKind::VariableDefinitions
    } else if name == "VARIABLE_DEFINITION"@ {
        NodeKind::VariableDefinition
    } else if name == "VARIABLE"@ {
        NodeKind::Variable
    } else if name == "DIRECTIVES"@ {
        NodeKind::Directives
    } else if name == "DIRECTIVE"@ {
        NodeKind::Directive
    } else if name == "ARGUMENTS"@ {
        NodeKind::Arguments
    } else if name == "ARGUMENT"@ {
        NodeKind::Argument
    } else if name == "FIELDS_DEFINITION"@ {
        NodeKind::FieldsDefinition
    } else if name == "FIELD_DEFINITION"@ {
        NodeKind::FieldDefinition
    } else if name == "ARGUMENTS_DEFINITION"@ {
        NodeKind::ArgumentsDefinition
    } else if name == "INPUT_VALUE_DEFINITION"@ {
        NodeKind::InputValueDefinition
    } else if name == "INPUT_FIELDS_DEFINITION"@ {
        NodeKind::InputFieldsDefinition
    } else if name == "IMPLEMENTS_INTERFACES"@ {
        NodeKind::ImplementsInterfaces
    } else if name == "UNION_MEMBER_TYPES"@ {
        NodeKind::UnionMemberTypes
    } else if name == "ENUM_VALUES_DEFINITION"@ {
        NodeKind::EnumValuesDefinition
    } else if name == "ENUM_VALUE_DEFINITION"@ {
        NodeKind::EnumValueDefinition
    } else if name == "ENUM_VALUE"@ {
        NodeKind::EnumValue
    } else if name == "STRING_VALUE"@ {
        NodeKind::StringValue
    } else if name == "FLOAT_VALUE"@ {
        NodeKind::FloatValue
    } else if name == "INT_VALUE"@ {
        NodeKind::IntValue
    } else if name == "BOOLEAN_VALUE"@ {
        NodeKind::BooleanValue
    } else if name == "NULL_VALUE"@ {
        NodeKind::NullValue
    } else if name == "LIST_VALUE"@ {
        NodeKind::ListValue
    } else if name == "OBJECT_VALUE"@ {
        NodeKind::ObjectValue
    } else if name == "mutation_KW"@ {
        NodeKind::MutationKeyword
    } else if name == "subscription_KW"@ {
        NodeKind::SubscriptionKeyword
    } else {
        NodeKind::Other
    }
}

/// The kind that the parser's name for it stands for.
pub fn node_kind(name: &str) -> (r: NodeKind)
    ensures
        r == node_kind_of(name@),
{
    if same(name, "NAME") {
        return NodeKind::Name;
    }
    if same(name, "NAMED_TYPE") {
        return NodeKind::NamedType;
    }
    if same(name, "LIST_TYPE") {
        return NodeKind::ListType;
    }
    if same(name, "NON_NULL_TYPE") {
        return NodeKind::NonNullType;
    }
    if same(name, "OPERATION_TYPE") {
        return NodeKind::OperationType;
    }
    if same(name, "ROOT_OPERATION_TYPE_DEFINITION") {
        return NodeKind::RootOperationTypeDefinition;
    }
    if same(name, "SCHEMA_DEFINITION") {
        return NodeKind::SchemaDefinition;
    }
    if same(name, "SCHEMA_EXTENSION") {
        return NodeKind::SchemaExtension;
    }
    if same(name, "FRAGMENT_DEFINITION") {
        return NodeKind::FragmentDefinition;
    }
    if same(name, "FRAGMENT_NAME") {
        return NodeKind::FragmentName;
    }
    if same(name, "TYPE_CONDITION") {
        return NodeKind::TypeCondition;
    }
    if same(name, "SELECTION_SET") {
        return NodeKind::SelectionSet;
    }
    if same(name, "FIELD") {
        return NodeKind::Field;
    }
    if same(name, "FRAGMENT_SPREAD") {
        return NodeKind::FragmentSpread;
    }
    if same(name, "INLINE_FRAGMENT") {
        return NodeKind::InlineFragment;
    }
    if same(name, "OBJECT_TYPE_DEFINITION") {
        return NodeKind::ObjectTypeDefinition;
    }
    if same(name, "OBJECT_TYPE_EXTENSION") {
        return NodeKind::ObjectTypeExtension;
    }
    if same(name, "INTERFACE_TYPE_DEFINITION") {
        return NodeKind::InterfaceTypeDefinition;
    }
    if same(name, "INTERFACE_TYPE_EXTENSION") {
        return NodeKind::InterfaceTypeExtension;
    }
    if same(name, "UNION_TYPE_DEFINITION") {
        return NodeKind::UnionTypeDefinition;
    }
    if same(name, "UNION_TYPE_EXTENSION") {
        return NodeKind::UnionTypeExtension;
    }
    if same(name, "ENUM_TYPE_DEFINITION") {
        return NodeKind::EnumTypeDefinition;
    }
    if same(name, "ENUM_TYPE_EXTENSION") {
        return NodeKind::EnumTypeExtension;
    }
    if same(name, "INPUT_OBJECT_TYPE_DEFINITION") {
        return NodeKind::InputObjectTypeDefinition;
    }
    if same(name, "INPUT_OBJECT_TYPE_EXTENSION") {
        return NodeKind::InputObjectTypeExtension;
    }
    if same(name, "SCALAR_TYPE_DEFINITION") {
        return NodeKind::ScalarTypeDefinition;
    }
    if same(name, "SCALAR_TYPE_EXTENSION") {
        return NodeKind::ScalarTypeExtension;
    }
    if same(name, "OPERATION_DEFINITION") {
        return NodeKind::OperationDefinition;
    }
    if same(name, "VARIABLE_DEFINITIONS") {
        return NodeKind::VariableDefinitions;
    }
    if same(name, "VARIABLE_DEFINITION") {
        return NodeKind::VariableDefinition;
    }
    if same(name, "VARIABLE") {
        return NodeKind::Variable;
    }
    if same(name, "DIRECTIVES") {
        return NodeKind::Directives;
    }
    if same(name, "DIRECTIVE") {
        return NodeKind::Directive;
    }
    if same(name, "ARGUMENTS") {
        return NodeKind::Arguments;
    }
    if same(name, "ARGUMENT") {
        return NodeKind::Argument;
    }
    if same(name, "FIELDS_DEFINITION") {
        return NodeKind::FieldsDefinition;
    }
    if same(name, "FIELD_DEFINITION") {
        return NodeKind::FieldDefinition;
    }
    if same(name, "ARGUMENTS_DEFINITION") {
        return NodeKind::ArgumentsDefinition;
    }
    if same(name, "INPUT_VALUE_DEFINITION") {
        return NodeKind::InputValueDefinition;
    }
    if same(name, "INPUT_FIELDS_DEFINITION") {
        return NodeKind::InputFieldsDefinition;
    }
    if same(name, "IMPLEMENTS_INTERFACES") {
        return NodeKind::ImplementsInterfaces;
    }
    if same(name, "UNION_MEMBER_TYPES") {
        return NodeKind::UnionMemberTypes;
    }
    if same(name, "ENUM_VALUES_DEFINITION") {
        return NodeKind::EnumValuesDefinition;
    }
    if same(name, "ENUM_VALUE_DEFINITION") {
        return NodeKind::EnumValueDefinition;
    }
    if same(name, "ENUM_VALUE") {
        return NodeKind::EnumValue;
    }
    if same(name, "STRING_VALUE") {
        return NodeKind::StringValue;
    }
    if same(name, "FLOAT_VALUE") {
        return NodeKind::FloatValue;
    }
    if same(name, "INT_VALUE") {
        return NodeKind::IntValue;
    }
    if same(name, "BOOLEAN_VALUE") {
        return NodeKind::BooleanValue;
    }
    if same(name, "NULL_VALUE") {
        return NodeKind::NullValue;
    }
    if same(name, "LIST_VALUE") {
        return NodeKind::ListValue;
    }
    if same(name, "OBJECT_VALUE") {
        return NodeKind::ObjectValue;
    }
    if same(name, "mutation_KW") {
        return NodeKind::MutationKeyword;
    }
    if same(name, "subscription_KW") {
        return NodeKind::SubscriptionKeyword;
    }
    NodeKind::Other
}
/// One element of a syntax tree.
#[derive(Debug)]
pub struct SyntaxElement {
    pub kind: NodeKind,
    pub depth: usize,
    pub start: u32,
    pub token: Option<String>,
}

/// The content of a [`SyntaxElement`].
pub ghost struct ElementModel {
    pub kind: NodeKind,
    pub depth: nat,
    pub start: nat,
    pub token: Option<Seq<char>>,
}

impl View for SyntaxElement {
    type V = ElementModel;

    open spec fn view(&self) -> ElementModel {
        ElementModel {
            kind: self.kind,
            depth: self.depth as nat,
            start: self.start as nat,
            token: crate::domain::optional_text(self.token),
        }
    }
}

/// A syntax tree.
#[derive(Debug)]
pub struct SyntaxDocument {
    pub elements: Vec<SyntaxElement>,
}

impl View for SyntaxDocument {
    type V = Seq<ElementModel>;

    open spec fn view(&self) -> Seq<ElementModel> {
        self.elements@.map_values(|x: SyntaxElement| x@)
    }
}

/// The tree that the parser's elements make up.
pub open spec fn tree_of(raw: Seq<RawModel>) -> Seq<ElementModel> {
    raw.map_values(
        |r: RawModel| ElementModel { kind: node_kind_of(r.kind), depth: r.depth, start: r.start, token: r.token },
    )
}

/// Reads the tree out of what the parser produced.
pub fn read_tree(raw: &Vec<RawElement>) -> (r: SyntaxDocument)
    ensures
        r@ == tree_of(raw@.map_values(|x: RawElement| x@)),
{
    let ghost whole = raw@.map_values(|x: RawElement| x@);
    let mut elements: Vec<SyntaxElement> = Vec::new();
    let mut i: usize = 0;
    while i < raw.len()
        invariant
            i <= raw.len(),
            whole == raw@.map_values(|x: RawElement| x@),
            elements@.len() == i,
            forall|j: int| 0 <= j < i ==> (#[trigger] elements@[j])@ == tree_of(whole)[j],
        decreases raw.len() - i,
    {
        let element: &RawElement = &raw[i];
        elements.push(SyntaxElement {
            kind: node_kind(element.kind.as_str()),
            depth: element.depth,
            start: element.start,
            token: match &element.token {
                Some(text) => Some(text.clone()),
                None => None,
            },
        });
        i = i + 1;
    }
    let r: SyntaxDocument = SyntaxDocument { elements };
    assert(r@ =~= tree_of(whole));
    r
}

/// A class of syntax elements.
#[derive(Clone, Copy, PartialEq, Eq, Structural, Debug)]
pub enum Class {
    AnyNode,
    Node(NodeKind),
    Token(NodeKind),
    Type,
    Value,
    Selection,
}

/// Whether the class admits the element.
pub open spec fn admits(class: Class, element: ElementModel) -> bool {
    match class {
        Class::AnyNode => element.token is None,
        Class::Node(kind) => element.token is None && element.kind == kind,
        Class::Token(kind) => element.token is Some && element.kind == kind,
        Class::Type => element.token is None && (element.kind == NodeKind::NamedType || element.kind == NodeKind::ListType
            || element.kind == NodeKind::NonNullType),
        Class::Value => element.token is None && (element.kind == NodeKind::Variable || element.kind == NodeKind::StringValue
            || element.kind == NodeKind::FloatValue || element.kind == NodeKind::IntValue || element.kind
            == NodeKind::BooleanValue || element.kind == NodeKind::NullValue || element.kind == NodeKind::EnumValue
            || element.kind == NodeKind::ListValue || element.kind == NodeKind::ObjectValue),
        Class::Selection => element.token is None && (element.kind == NodeKind::Field || element.kind
            == NodeKind::FragmentSpread || element.kind == NodeKind::InlineFragment),
    }
}

/// The positions from `at` on of the children that the class admits, for a parent at `depth`.
pub open spec fn select_from(tree: Seq<ElementModel>, depth: nat, at: int, class: Class) -> Seq<int>
    decreases tree.len() - at,
{
    if at >= tree.len() || tree[at].depth <= depth {
        Seq::empty()
    } else {
        (if tree[at].depth == depth + 1 && admits(class, tree[at]) {
            seq![at]
        } else {
            Seq::empty()
        }) + select_from(tree, depth, at + 1, class)
    }
}

/// The children of an element that the class admits, in order.
pub open spec fn select(tree: Seq<ElementModel>, node: int, class: Class) -> Seq<int> {
    select_from(tree, tree[node].depth, node + 1, class)
}

/// The first child of an element that the class admits.
pub open spec fn first(tree: Seq<ElementModel>, node: int, class: Class) -> Option<int> {
    let found = select(tree, node, class);
    if found.len() > 0 {
        Some(found[0])
    } else {
        None
    }
}

/// Children stand behind their parent.
pub proof fn select_from_within(tree: Seq<ElementModel>, depth: nat, at: int, class: Class)
    requires
        0 <= at,
    ensures
        forall|k: int| 0 <= k < select_from(tree, depth, at, class).len() ==> at <= #[trigger] select_from(
            tree,
            depth,
            at,
            class,
        )[k] < tree.len() && admits(class, tree[select_from(tree, depth, at, class)[k]]),
    decreases tree.len() - at,
{
    if at >= tree.len() || tree[at].depth <= depth {
    } else {
        select_from_within(tree, depth, at + 1, class);
        let head = if tree[at].depth == depth + 1 && admits(class, tree[at]) {
            seq![at]
        } else {
            Seq::empty()
        };
        let rest = select_from(tree, depth, at + 1, class);
        assert forall|k: int| 0 <= k < select_from(tree, depth, at, class).len() implies at <= #[trigger] select_from(
            tree,
            depth,
            at,
            class,
        )[k] < tree.len() && admits(class, tree[select_from(tree, depth, at, class)[k]]) by {
            if k >= head.len() {
                assert(select_from(tree, depth, at, class)[k] == rest[k - head.len()]);
            }
        }
    }
}

/// Children stand behind their parent.
pub proof fn select_within(tree: Seq<ElementModel>, node: int, class: Class)
    requires
        0 <= node,
    ensures
        forall|k: int| 0 <= k < select(tree, node, class).len() ==> node < #[trigger] select(tree, node, class)[k]
            < tree.len() && admits(class, tree[select(tree, node, class)[k]]),
        first(tree, node, class) is Some ==> node < first(tree, node, class)->0 < tree.len(),
{
    select_from_within(tree, tree[node].depth, node + 1, class);
}

/// Positions as integers.
pub open spec fn positions(list: Seq<usize>) -> Seq<int> {
    list.map_values(|x: usize| x as int)
}

/// The text of the first token right inside an element.
pub open spec fn first_token_text(tree: Seq<ElementModel>, node: int) -> Seq<char> {
    if node + 1 < tree.len() && tree[node + 1].depth == tree[node].depth + 1 && tree[node + 1].token is Some {
        tree[node + 1].token->0
    } else {
        Seq::empty()
    }
}

/// The text of all tokens from `at` on that lie deeper than `depth`.
pub open spec fn text_from(tree: Seq<ElementModel>, depth: nat, at: int) -> Seq<char>
    decreases tree.len() - at,
{
    if at >= tree.len() || tree[at].depth <= depth {
        Seq::empty()
    } else {
        (match tree[at].token {
            Some(text) => text,
            None => Seq::empty(),
        }) + text_from(tree, depth, at + 1)
    }
}

/// The whole text of an element.
pub open spec fn node_text(tree: Seq<ElementModel>, node: int) -> Seq<char> {
    text_from(tree, tree[node].depth, node + 1)
}

/// The name that stands right inside an element.
pub open spec fn name_of(tree: Seq<ElementModel>, node: int) -> Option<Seq<char>> {
    match first(tree, node, Class::Node(NodeKind::Name)) {
        Some(name) => Some(first_token_text(tree, name)),
        None => None,
    }
}

/// The child of a child, of one kind each.
pub open spec fn grandchild(tree: Seq<ElementModel>, node: int, outer: NodeKind, class: Class) -> Option<int> {
    match first(tree, node, Class::Node(outer)) {
        Some(child) => first(tree, child, class),
        None => None,
    }
}

/// The children that the class admits of the first child of a kind.
pub open spec fn inside(tree: Seq<ElementModel>, node: int, outer: NodeKind, class: Class) -> Seq<int> {
    match first(tree, node, Class::Node(outer)) {
        Some(child) => select(tree, child, class),
        None => Seq::empty(),
    }
}

/// The name inside the first child of a kind.
pub open spec fn name_inside(tree: Seq<ElementModel>, node: int, outer: NodeKind) -> Option<Seq<char>> {
    match first(tree, node, Class::Node(outer)) {
        Some(child) => name_of(tree, child),
        None => None,
    }
}

impl SyntaxElement {
    /// Whether the class admits the element.
    pub fn admitted(&self, class: Class) -> (r: bool)
        ensures
            r == admits(class, self@),
    {
        let node: bool = self.token.is_none();
        match class {
            Class::AnyNode => node,
            Class::Node(kind) => node && self.kind == kind,
            Class::Token(kind) => !node && self.kind == kind,
            Class::Type => node && matches!(
                self.kind,
                NodeKind::NamedType | NodeKind::ListType | NodeKind::NonNullType
            ),
            Class::Value => node && matches!(
                self.kind,
                NodeKind::Variable | NodeKind::StringValue | NodeKind::FloatValue | NodeKind::IntValue
                | NodeKind::BooleanValue | NodeKind::NullValue | NodeKind::EnumValue | NodeKind::ListValue
                | NodeKind::ObjectValue
            ),
            Class::Selection => node && matches!(
                self.kind,
                NodeKind::Field | NodeKind::FragmentSpread | NodeKind::InlineFragment
            ),
        }
    }
}

impl SyntaxDocument {
    /// The children of an element that the class admits, in order.
    pub fn select(&self, node: usize, class: Class) -> (r: Vec<usize>)
        requires
            node < self@.len(),
        ensures
            positions(r@) == select(self@, node as int, class),
            forall|k: int| 0 <= k < r@.len() ==> node < #[trigger] r@[k] < self@.len() && admits(class, self@[r@[k] as int]),
    {
        let depth: usize = self.elements[node].depth;
        let mut out: Vec<usize> = Vec::new();
        let end: usize = self.elements.len();
        let mut at: usize = node + 1;
        while at < end && self.elements[at].depth > depth
            invariant
                node < at <= end,
                end == self.elements@.len(),
                node < self@.len(),
                depth == self@[node as int].depth,
                positions(out@) + select_from(self@, depth as nat, at as int, class) == select(self@, node as int, class),
            decreases self.elements@.len() - at,
        {
            let ghost before = out@;
            let ghost rest = select_from(self@, depth as nat, at as int + 1, class);
            if self.elements[at].depth - depth == 1 && self.elements[at].admitted(class) {
                out.push(at);
                proof {
                    assert(positions(out@) =~= positions(before) + seq![at as int]);
                    assert(positions(out@) + rest =~= positions(before) + (seq![at as int] + rest));
                }
            } else {
                proof {
                    assert(Seq::<int>::empty() + rest =~= rest);
                }
            }
            at = at + 1;
        }
        proof {
            assert(positions(out@) + Seq::<int>::empty() =~= positions(out@));
            select_within(self@, node as int, class);
            assert forall|k: int| 0 <= k < out@.len() implies node < #[trigger] out@[k] < self@.len() && admits(
                class,
                self@[out@[k] as int],
            ) by {
                assert(select(self@, node as int, class)[k] == out@[k]);
            }
        }
        out
    }

    /// The first child of an element that the class admits.
    pub fn first(&self, node: usize, class: Class) -> (r: Option<usize>)
        requires
            node < self@.len(),
        ensures
            r is Some <==> first(self@, node as int, class) is Some,
            r is Some ==> first(self@, node as int, class)->0 == r->0 && node < r->0 < self@.len(),
    {
        let found: Vec<usize> = self.select(node, class);
        if found.len() > 0 {
            assert(positions(found@)[0] == found@[0]);
            Some(found[0])
        } else {
            assert(positions(found@).len() == 0);
            None
        }
    }

    /// The text of the first token right inside an element.
    pub fn first_token_text(&self, node: usize) -> (r: String)
        requires
            node < self@.len(),
        ensures
            r@ == first_token_text(self@, node as int),
    {
        let end: usize = self.elements.len();
        if node + 1 < end && self.elements[node + 1].depth > self.elements[node].depth
            && self.elements[node + 1].depth - self.elements[node].depth == 1 {
            match &self.elements[node + 1].token {
                Some(text) => text.clone(),
                None => String::new(),
            }
        } else {
            String::new()
        }
    }

    /// The whole text of an element.
    pub fn node_text(&self, node: usize) -> (r: String)
        requires
            node < self@.len(),
        ensures
            r@ == node_text(self@, node as int),
    {
        let depth: usize = self.elements[node].depth;
        let mut out: String = String::new();
        let end: usize = self.elements.len();
        let mut at: usize = node + 1;
        while at < end && self.elements[at].depth > depth
            invariant
                node < at <= end,
                end == self.elements@.len(),
                node < self@.len(),
                depth == self@[node as int].depth,
                out@ + text_from(self@, depth as nat, at as int) == node_text(self@, node as int),
            decreases self.elements@.len() - at,
        {
            let ghost before = out@;
            let ghost rest = text_from(self@, depth as nat, at as int + 1);
            match &self.elements[at].token {
                Some(text) => {
                    out.append(text.as_str());
                    assert(out@ + rest =~= before + (text@ + rest));
                },
                None => {
                    assert(Seq::<char>::empty() + rest =~= rest);
                },
            }
            at = at + 1;
        }
        assert(out@ + Seq::<char>::empty() =~= out@);
        out
    }

    /// The name that stands right inside an element.
    pub fn name_of(&self, node: usize) -> (r: Option<String>)
        requires
            node < self@.len(),
        ensures
            crate::domain::optional_text(r) == name_of(self@, node as int),
    {
        match self.first(node, Class::Node(NodeKind::Name)) {
            Some(name) => Some(self.first_token_text(name)),
            None => None,
        }
    }

    /// The children that the class admits of the first child of a kind.
    pub fn inside(&self, node: usize, outer: NodeKind, class: Class) -> (r: Vec<usize>)
        requires
            node < self@.len(),
        ensures
            positions(r@) == inside(self@, node as int, outer, class),
            forall|k: int| 0 <= k < r@.len() ==> node < #[trigger] r@[k] < self@.len() && admits(class, self@[r@[k] as int]),
    {
        match self.first(node, Class::Node(outer)) {
            Some(child) => self.select(child, class),
            None => {
                let none: Vec<usize> = Vec::new();
                assert(positions(none@) =~= Seq::<int>::empty());
                none
            },
        }
    }

    /// The name inside the first child of a kind.
    pub fn name_inside(&self, node: usize, outer: NodeKind) -> (r: Option<String>)
        requires
            node < self@.len(),
        ensures
            crate::domain::optional_text(r) == name_inside(self@, node as int, outer),
    {
        match self.first(node, Class::Node(outer)) {
            Some(child) => self.name_of(child),
            None => None,
        }
    }
}

/// How many line breaks the first `n` bytes hold.
pub open spec fn line_breaks(bytes: Seq<u8>, n: int) -> nat
    decreases n,
{
    if n <= 0 {
        0
    } else {
        line_breaks(bytes, n - 1) + (if bytes[n - 1] == 10 {
            1nat
        } else {
            0nat
        })
    }
}

/// The line, counted from one, on which a byte offset lies.
pub open spec fn line_at(bytes: Seq<u8>, offset: nat) -> nat {
    line_breaks(bytes, if offset <= bytes.len() { offset as int } else { bytes.len() as int }) + 1
}

/// No stretch of text holds more line breaks than bytes.
pub proof fn line_breaks_bound(bytes: Seq<u8>, n: int)
    requires
        0 <= n <= bytes.len(),
    ensures
        line_breaks(bytes, n) <= n,
    decreases n,
{
    if n > 0 {
        line_breaks_bound(bytes, n - 1);
    }
}

/// The line, counted from one, on which a byte offset lies.
pub fn line_number(source: &str, offset: usize) -> (r: u64)
    requires
        encode_utf8(source@).len() <= u32::MAX,
    ensures
        r == line_at(encode_utf8(source@), offset as nat),
        r <= u32::MAX as u64 + 1,
{
    let bytes: &[u8] = source.as_bytes();
    let end: usize = if offset <= bytes.len() {
        offset
    } else {
        bytes.len()
    };
    let mut count: u64 = 0;
    let mut i: usize = 0;
    while i < end
        invariant
            i <= end <= bytes@.len(),
            bytes@.len() <= u32::MAX,
            count == line_breaks(bytes@, i as int),
            count <= i,
        decreases end - i,
    {
        if bytes[i] == 10 {
            count = count + 1;
        }
        i = i + 1;
    }
    count + 1
}

} // verus!
