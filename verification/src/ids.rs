//! What an entity's identifier says of the entity.

use crate::domain::{optional_text, EntityMetadata};
use crate::dto::{EntityKind, EntityOrigin, EntityRef, EntityRefModel};
use crate::sorted::SortedMap;
use crate::text::{
    ascii_lower, characters, contains, contains_text, ends, ends_with, holds, is_size, lowercase, parses_as_size, rsplit_once, same,
    spells, split, split_at, split_at_nonempty, split_first, split_last, split_once, starts_with, strip_prefix,
};
use vstd::prelude::*;

verus! {

/// A set of texts, in ascending order.
pub type TextSet = SortedMap<String, ()>;

/// Whether a segment of an identifier marks test code.
pub open spec fn is_test_segment(part: Seq<char>) -> bool {
    let lower = ascii_lower(part);
    ||| lower == "test"@
    ||| lower == "tests"@
    ||| lower == "spec"@
    ||| lower == "specs"@
    ||| lower == "bench"@
    ||| lower == "benches"@
    ||| ".test"@.is_suffix_of(lower)
    ||| ".spec"@.is_suffix_of(lower)
    ||| "_test"@.is_suffix_of(lower)
    ||| "_spec"@.is_suffix_of(lower)
    ||| contains_text(lower, ".test."@)
    ||| contains_text(lower, ".spec."@)
    ||| contains_text(lower, "_test."@)
    ||| contains_text(lower, "_spec."@)
    ||| "Test"@.is_suffix_of(part)
}

/// Whether a segment of an identifier marks test code.
fn test_segment(part: &str) -> (r: bool)
    ensures
        r == is_test_segment(part@),
{
    let lower: Vec<char> = lowercase(part);
    spells(&lower, "test") || spells(&lower, "tests") || spells(&lower, "spec") || spells(&lower, "specs") || spells(
        &lower,
        "bench",
    ) || spells(&lower, "benches") || ends(&lower, ".test") || ends(&lower, ".spec") || ends(&lower, "_test") || ends(
        &lower,
        "_spec",
    ) || holds(&lower, ".test.") || holds(&lower, ".spec.") || holds(&lower, "_test.") || holds(&lower, "_spec.")
        || ends_with(part, "Test")
}

/// Whether the last segment of an identifier names a test.
pub open spec fn is_test_name(name: Seq<char>) -> bool {
    ||| "test_"@.is_prefix_of(name)
    ||| "spec_"@.is_prefix_of(name)
    ||| "bench_"@.is_prefix_of(name)
    ||| "_test"@.is_suffix_of(name)
    ||| "_spec"@.is_suffix_of(name)
}

/// Whether an identifier stands for test code.
pub open spec fn is_test_id(id: Seq<char>) -> bool {
    let parts = split_at(id, '/');
    (exists|i: int| 0 <= i < parts.len() && is_test_segment(#[trigger] parts[i])) || is_test_name(parts.last())
}

/// Whether an identifier stands for test code.
pub fn is_test_entity(id: &str) -> (r: bool)
    ensures
        r == is_test_id(id@),
{
    let parts: Vec<String> = split(id, '/');
    let ghost pieces = split_at(id@, '/');
    proof {
        split_at_nonempty(id@, '/');
        assert(parts@.map_values(|s: String| s@).len() == pieces.len());
    }
    let mut i: usize = 0;
    while i < parts.len()
        invariant
            i <= parts@.len(),
            parts@.map_values(|s: String| s@) == pieces,
            pieces == split_at(id@, '/'),
            forall|k: int| 0 <= k < i ==> !is_test_segment(#[trigger] pieces[k]),
        decreases parts@.len() - i,
    {
        assert(parts@.map_values(|s: String| s@)[i as int] == parts@[i as int]@);
        if test_segment(parts[i].as_str()) {
            return true;
        }
        i = i + 1;
    }
    let name: &str = parts[parts.len() - 1].as_str();
    assert(name@ == pieces.last());
    starts_with(name, "test_") || starts_with(name, "spec_") || starts_with(name, "bench_") || ends_with(name, "_test")
        || ends_with(name, "_spec")
}

/// Whether what follows the last slash is a number.
pub open spec fn has_arity(symbol: Seq<char>) -> bool {
    match split_last(symbol, "/"@) {
        Some((_, arity)) => is_size(arity),
        None => false,
    }
}

/// The kind that an identifier shows by itself.
pub open spec fn kind_of_id(id: Seq<char>) -> EntityKind {
    if "grpc://"@.is_prefix_of(id) || "proto-method://"@.is_prefix_of(id) || "rpc/"@.is_prefix_of(id)
        || "rpc://"@.is_prefix_of(id) {
        EntityKind::Rpc
    } else if "graphql-field://"@.is_prefix_of(id) {
        EntityKind::GraphqlField
    } else if "graphql-argument://"@.is_prefix_of(id) {
        EntityKind::GraphqlArgument
    } else if "graphql-enum-value://"@.is_prefix_of(id) {
        EntityKind::GraphqlEnumValue
    } else if "graphql-operation://"@.is_prefix_of(id) {
        EntityKind::GraphqlOperation
    } else if "graphql-type://"@.is_prefix_of(id) {
        EntityKind::GraphqlType
    } else if "kafka-topic://"@.is_prefix_of(id) {
        EntityKind::KafkaTopic
    } else if contains_text(id, "/unity-prefab/"@) {
        EntityKind::UnityPrefab
    } else if "rust-call://"@.is_prefix_of(id) || "rust-method://"@.is_prefix_of(id) || "elixir-call://"@.is_prefix_of(
        id,
    ) {
        EntityKind::Callable
    } else if "elixir-module://"@.is_prefix_of(id) || "erlang-module://"@.is_prefix_of(id) {
        EntityKind::Namespace
    } else if "proto-field://"@.is_prefix_of(id) {
        EntityKind::ProtoField
    } else if "proto-service://"@.is_prefix_of(id) {
        EntityKind::ProtoService
    } else if contains_text(id, "/elixir-source/"@) {
        EntityKind::Namespace
    } else {
        match split_last(id, "/elixir/"@) {
            Some((_, symbol)) => if has_arity(symbol) {
                EntityKind::Callable
            } else {
                EntityKind::Namespace
            },
            None => EntityKind::Unknown,
        }
    }
}

/// The kind that an identifier shows by itself.
pub fn infer_kind(id: &str) -> (r: EntityKind)
    ensures
        r == kind_of_id(id@),
{
    if starts_with(id, "grpc://") || starts_with(id, "proto-method://") || starts_with(id, "rpc/") || starts_with(
        id,
        "rpc://",
    ) {
        EntityKind::Rpc
    } else if starts_with(id, "graphql-field://") {
        EntityKind::GraphqlField
    } else if starts_with(id, "graphql-argument://") {
        EntityKind::GraphqlArgument
    } else if starts_with(id, "graphql-enum-value://") {
        EntityKind::GraphqlEnumValue
    } else if starts_with(id, "graphql-operation://") {
        EntityKind::GraphqlOperation
    } else if starts_with(id, "graphql-type://") {
        EntityKind::GraphqlType
    } else if starts_with(id, "kafka-topic://") {
        EntityKind::KafkaTopic
    } else if contains(id, "/unity-prefab/") {
        EntityKind::UnityPrefab
    } else if starts_with(id, "rust-call://") || starts_with(id, "rust-method://") || starts_with(id, "elixir-call://") {
        EntityKind::Callable
    } else if starts_with(id, "elixir-module://") || starts_with(id, "erlang-module://") {
        EntityKind::Namespace
    } else if starts_with(id, "proto-field://") {
        EntityKind::ProtoField
    } else if starts_with(id, "proto-service://") {
        EntityKind::ProtoService
    } else if contains(id, "/elixir-source/") {
        EntityKind::Namespace
    } else {
        match rsplit_once(id, "/elixir/") {
            Some((_, symbol)) => {
                let callable: bool = match rsplit_once(symbol, "/") {
                    Some((_, arity)) => parses_as_size(arity),
                    None => false,
                };
                if callable {
                    EntityKind::Callable
                } else {
                    EntityKind::Namespace
                }
            },
            None => EntityKind::Unknown,
        }
    }
}

/// The kind that an end of a relation shows, where the identifier does not.
pub open spec fn hinted_kind(relation: Seq<char>, source: bool, id: Seq<char>) -> EntityKind {
    if kind_of_id(id) != EntityKind::Unknown {
        kind_of_id(id)
    } else if relation == "defines"@ && source {
        EntityKind::Namespace
    } else if relation == "defines"@ || relation == "calls"@ || (relation == "implemented_by"@ && !source) {
        EntityKind::Callable
    } else if relation == "calls_graphql"@ {
        if source {
            EntityKind::Callable
        } else {
            EntityKind::GraphqlOperation
        }
    } else if (relation == "calls_rpc"@ && !source) || (relation == "implemented_by"@ && source) {
        EntityKind::Rpc
    } else if (relation == "selects"@ && !source) || (relation == "resolved_by"@ && source) {
        EntityKind::GraphqlField
    } else {
        EntityKind::Unknown
    }
}

/// The kind that an end of a relation shows, where the identifier does not.
pub fn relation_kind_hint(relation: &str, source: bool, id: &str) -> (r: EntityKind)
    ensures
        r == hinted_kind(relation@, source, id@),
{
    let inferred: EntityKind = infer_kind(id);
    if inferred != EntityKind::Unknown {
        return inferred;
    }
    let defines: bool = same(relation, "defines");
    let implemented: bool = same(relation, "implemented_by");
    if defines && source {
        EntityKind::Namespace
    } else if defines || same(relation, "calls") || (implemented && !source) {
        EntityKind::Callable
    } else if same(relation, "calls_graphql") {
        if source {
            EntityKind::Callable
        } else {
            EntityKind::GraphqlOperation
        }
    } else if (same(relation, "calls_rpc") && !source) || (implemented && source) {
        EntityKind::Rpc
    } else if (same(relation, "selects") && !source) || (same(relation, "resolved_by") && source) {
        EntityKind::GraphqlField
    } else {
        EntityKind::Unknown
    }
}

/// How much a kind says: a more telling kind replaces a less telling one.
pub open spec fn priority(kind: EntityKind) -> u8 {
    match kind {
        EntityKind::Unknown => 0,
        EntityKind::Namespace => 1,
        EntityKind::Callable => 2,
        _ => 3,
    }
}

/// How much a kind says: a more telling kind replaces a less telling one.
pub fn kind_priority(kind: EntityKind) -> (r: u8)
    ensures
        r == priority(kind),
{
    match kind {
        EntityKind::Unknown => 0,
        EntityKind::Namespace => 1,
        EntityKind::Callable => 2,
        _ => 3,
    }
}

/// Whether the character separates parts of an identifier.
pub open spec fn is_separator(c: char) -> bool {
    c == '/' || c == ':'
}

/// Where the text up to `end` ends once separators behind it are left out.
pub open spec fn part_end(text: Seq<char>, end: int) -> int
    decreases end,
{
    if end <= 0 || !is_separator(text[end - 1]) {
        end
    } else {
        part_end(text, end - 1)
    }
}

/// Where the part that ends at `start` or later begins.
pub open spec fn part_start(text: Seq<char>, start: int) -> int
    decreases start,
{
    if start <= 0 || is_separator(text[start - 1]) {
        start
    } else {
        part_start(text, start - 1)
    }
}

/// The last part of an identifier that is not empty; the identifier where there is none.
pub open spec fn last_part(text: Seq<char>) -> Seq<char> {
    let end = part_end(text, text.len() as int);
    if end <= 0 {
        text
    } else {
        text.subrange(part_start(text, end), end)
    }
}

/// The last part of an identifier that is not empty; the identifier where there is none.
fn last_segment(text: &str) -> (r: String)
    ensures
        r@ == last_part(text@),
{
    let all: Vec<char> = characters(text);
    let mut end: usize = all.len();
    while end > 0 && (all[end - 1] == '/' || all[end - 1] == ':')
        invariant
            all@ == text@,
            end <= all@.len(),
            part_end(text@, text@.len() as int) == part_end(text@, end as int),
        decreases end,
    {
        end = end - 1;
    }
    if end == 0 {
        return text.to_owned();
    }
    let mut start: usize = end;
    while start > 0 && all[start - 1] != '/' && all[start - 1] != ':'
        invariant
            all@ == text@,
            start <= end <= all@.len(),
            part_start(text@, end as int) == part_start(text@, start as int),
        decreases start,
    {
        start = start - 1;
    }
    text.substring_char(start, end).to_owned()
}

/// What follows the last separator, or all of the text.
pub open spec fn after_last(text: Seq<char>, separator: Seq<char>) -> Seq<char> {
    match split_last(text, separator) {
        Some((_, last)) => last,
        None => text,
    }
}

/// What follows the last separator, or all of the text.
fn tail_after<'a>(text: &'a str, separator: &str) -> (r: &'a str)
    ensures
        r@ == after_last(text@, separator@),
{
    match rsplit_once(text, separator) {
        Some((_, last)) => last,
        None => text,
    }
}

/// The rest of the text behind a prefix.
pub open spec fn behind(text: Seq<char>, prefix: Seq<char>) -> Option<Seq<char>> {
    if prefix.is_prefix_of(text) {
        Some(text.skip(prefix.len() as int))
    } else {
        None
    }
}

/// The rest of the text behind a prefix.
pub fn rest_behind<'a>(text: &'a str, prefix: &str) -> (r: Option<&'a str>)
    ensures
        r is Some <==> behind(text@, prefix@) is Some,
        r is Some ==> r->0@ == behind(text@, prefix@)->0,
{
    match strip_prefix(text, prefix) {
        Some(rest) => {
            assert(rest@ =~= text@.skip(prefix@.len() as int));
            Some(rest)
        },
        None => None,
    }
}

/// The name of an external Elixir function, with its arity.
pub open spec fn elixir_call_name(id: Seq<char>) -> Option<Seq<char>> {
    match behind(id, "elixir-call://"@) {
        Some(symbol) => match split_last(symbol, "/"@) {
            Some((function, arity)) => if is_size(arity) {
                match split_last(function, "/"@) {
                    Some((module, name)) => Some(module + "."@ + name + "/"@ + arity),
                    None => Some(function + "/"@ + arity),
                }
            } else {
                None
            },
            None => None,
        },
        None => None,
    }
}

fn elixir_call(id: &str) -> (r: Option<String>)
    ensures
        optional_text(r) == elixir_call_name(id@),
{
    match rest_behind(id, "elixir-call://") {
        Some(symbol) => match rsplit_once(symbol, "/") {
            Some((function, arity)) => if parses_as_size(arity) {
                match rsplit_once(function, "/") {
                    Some((module, name)) => {
                        let mut out: String = module.to_owned();
                        out.append(".");
                        out.append(name);
                        out.append("/");
                        out.append(arity);
                        Some(out)
                    },
                    None => {
                        let mut out: String = function.to_owned();
                        out.append("/");
                        out.append(arity);
                        Some(out)
                    },
                }
            } else {
                None
            },
            None => None,
        },
        None => None,
    }
}

/// The name of a remote method: the service without its package, and the method.
pub open spec fn rpc_name(id: Seq<char>) -> Option<Seq<char>> {
    let rest = match behind(id, "proto-method://"@) {
        Some(rest) => Some(rest),
        None => behind(id, "grpc://"@),
    };
    match rest {
        Some(path) => match split_first(path, "/"@) {
            Some((service, method)) => Some(after_last(service, "."@) + "."@ + method),
            None => None,
        },
        None => None,
    }
}

fn rpc(id: &str) -> (r: Option<String>)
    ensures
        optional_text(r) == rpc_name(id@),
{
    let rest: Option<&str> = match rest_behind(id, "proto-method://") {
        Some(rest) => Some(rest),
        None => rest_behind(id, "grpc://"),
    };
    match rest {
        Some(path) => match split_once(path, "/") {
            Some((service, method)) => {
                let mut out: String = tail_after(service, ".").to_owned();
                out.append(".");
                out.append(method);
                Some(out)
            },
            None => None,
        },
        None => None,
    }
}

/// The name of an Elixir function of a repository, with its arity.
pub open spec fn elixir_function_name(id: Seq<char>) -> Option<Seq<char>> {
    match split_last(id, "/elixir/"@) {
        Some((_, symbol)) => match split_last(symbol, "/"@) {
            Some((function, arity)) => if is_size(arity) {
                Some(after_last(function, "/"@) + "/"@ + arity)
            } else {
                None
            },
            None => None,
        },
        None => None,
    }
}

fn elixir_function(id: &str) -> (r: Option<String>)
    ensures
        optional_text(r) == elixir_function_name(id@),
{
    match rsplit_once(id, "/elixir/") {
        Some((_, symbol)) => match rsplit_once(symbol, "/") {
            Some((function, arity)) => if parses_as_size(arity) {
                let mut out: String = tail_after(function, "/").to_owned();
                out.append("/");
                out.append(arity);
                Some(out)
            } else {
                None
            },
            None => None,
        },
        None => None,
    }
}

/// The name to show for an identifier.
pub open spec fn name_of_id(id: Seq<char>) -> Seq<char> {
    match behind(id, "elixir-module://"@) {
        Some(module) => module,
        None => match elixir_call_name(id) {
            Some(name) => name,
            None => match rpc_name(id) {
                Some(name) => name,
                None => match elixir_function_name(id) {
                    Some(name) => name,
                    None => last_part(id),
                },
            },
        },
    }
}

/// The name to show for an identifier.
pub fn entity_name(id: &str) -> (r: String)
    ensures
        r@ == name_of_id(id@),
{
    match rest_behind(id, "elixir-module://") {
        Some(module) => module.to_owned(),
        None => match elixir_call(id) {
            Some(name) => name,
            None => match rpc(id) {
                Some(name) => name,
                None => match elixir_function(id) {
                    Some(name) => name,
                    None => last_segment(id),
                },
            },
        },
    }
}

/// What stands before the last marker, where there is one.
pub open spec fn before_marker(rest: Seq<char>, marker: Seq<char>) -> Option<Seq<char>> {
    match split_last(rest, marker) {
        Some((repository, _)) => Some(repository),
        None => None,
    }
}

/// The first of two that is there.
pub open spec fn or_else(a: Option<Seq<char>>, b: Option<Seq<char>>) -> Option<Seq<char>> {
    match a {
        Some(_) => a,
        None => b,
    }
}

/// The repository in which an entity is defined. Markers of source files come before those of
/// symbols.
pub open spec fn repository_of(id: Seq<char>) -> Option<Seq<char>> {
    match behind(id, "repo://"@) {
        Some(rest) => or_else(
            before_marker(rest, "/elixir-source/"@),
            or_else(
                before_marker(rest, "/typescript-source/"@),
                or_else(
                    before_marker(rest, "/javascript-source/"@),
                    or_else(
                        before_marker(rest, "/csharp-source/"@),
                        or_else(
                            before_marker(rest, "/unity-prefab/"@),
                            or_else(
                                before_marker(rest, "/rust/"@),
                                or_else(
                                    before_marker(rest, "/elixir/"@),
                                    or_else(
                                        before_marker(rest, "/typescript/"@),
                                        or_else(
                                            before_marker(rest, "/javascript/"@),
                                            before_marker(rest, "/csharp/"@),
                                        ),
                                    ),
                                ),
                            ),
                        ),
                    ),
                ),
            ),
        ),
        None => None,
    }
}

fn marked(rest: &str, marker: &str) -> (r: Option<String>)
    ensures
        optional_text(r) == before_marker(rest@, marker@),
{
    match rsplit_once(rest, marker) {
        Some((repository, _)) => Some(repository.to_owned()),
        None => None,
    }
}

fn either(found: Option<String>, rest: &str, marker: &str) -> (r: Option<String>)
    ensures
        optional_text(r) == or_else(optional_text(found), before_marker(rest@, marker@)),
{
    match found {
        Some(repository) => Some(repository),
        None => marked(rest, marker),
    }
}

/// The repository in which an entity is defined.
pub fn repository(id: &str) -> (r: Option<String>)
    ensures
        optional_text(r) == repository_of(id@),
{
    match rest_behind(id, "repo://") {
        Some(rest) => {
            let found: Option<String> = marked(rest, "/elixir-source/");
            let found: Option<String> = either(found, rest, "/typescript-source/");
            let found: Option<String> = either(found, rest, "/javascript-source/");
            let found: Option<String> = either(found, rest, "/csharp-source/");
            let found: Option<String> = either(found, rest, "/unity-prefab/");
            let found: Option<String> = either(found, rest, "/rust/");
            let found: Option<String> = either(found, rest, "/elixir/");
            let found: Option<String> = either(found, rest, "/typescript/");
            let found: Option<String> = either(found, rest, "/javascript/");
            either(found, rest, "/csharp/")
        },
        None => None,
    }
}

/// Whether what follows the scheme of an identifier lies in a repository.
pub open spec fn lies_in(rest: Seq<char>, target: Seq<char>) -> bool {
    (target + "/"@).is_prefix_of(rest)
}

/// The first of the targets from `k` on that the rest of an identifier lies in.
pub open spec fn target_from(rest: Seq<char>, targets: Seq<String>, k: int) -> Option<int>
    decreases targets.len() - k,
{
    if k >= targets.len() {
        None
    } else if lies_in(rest, targets[k]@) {
        Some(k)
    } else {
        target_from(rest, targets, k + 1)
    }
}

/// The first of the targets, in ascending order, that the entity lies in.
pub open spec fn target_of(id: Seq<char>, targets: Seq<String>) -> Option<Seq<char>> {
    match behind(id, "repo://"@) {
        Some(rest) => match target_from(rest, targets, 0) {
            Some(k) => Some(targets[k]@),
            None => None,
        },
        None => None,
    }
}

/// The characters of an optional text that is borrowed.
pub open spec fn borrowed_text<'a>(text: Option<&'a str>) -> Option<Seq<char>> {
    match text {
        Some(s) => Some(s@),
        None => None,
    }
}

/// The first of the targets, in ascending order, that the entity lies in.
pub fn target_repository<'a>(id: &str, targets: &'a TextSet) -> (r: Option<&'a str>)
    ensures
        borrowed_text(r) == target_of(id@, targets.keys@),
{
    match rest_behind(id, "repo://") {
        Some(rest) => {
            let mut k: usize = 0;
            while k < targets.keys.len()
                invariant
                    k <= targets.keys@.len(),
                    behind(id@, "repo://"@) == Some(rest@),
                    target_from(rest@, targets.keys@, 0) == target_from(rest@, targets.keys@, k as int),
                decreases targets.keys@.len() - k,
            {
                let mut prefix: String = targets.keys[k].clone();
                prefix.append("/");
                if starts_with(rest, prefix.as_str()) {
                    return Some(targets.keys[k].as_str());
                }
                k = k + 1;
            }
            None
        },
        None => None,
    }
}

/// The origin that an identifier shows by itself.
pub open spec fn origin_of_id(id: Seq<char>) -> EntityOrigin {
    if "rust-call://"@.is_prefix_of(id) || "rust-method://"@.is_prefix_of(id) || "elixir-call://"@.is_prefix_of(id)
        || "elixir-module://"@.is_prefix_of(id) || "erlang-module://"@.is_prefix_of(id) || "unity://"@.is_prefix_of(id) {
        EntityOrigin::ExternalDependency
    } else {
        EntityOrigin::Source
    }
}

/// The node for an entity.
pub open spec fn node_for(id: Seq<char>, kind: EntityKind, origin: Option<EntityOrigin>, metadata: Option<EntityMetadata>) -> EntityRefModel {
    EntityRefModel {
        id,
        kind,
        name: name_of_id(id),
        repository: repository_of(id),
        origin: match origin {
            Some(origin) => origin,
            None => origin_of_id(id),
        },
        test: is_test_id(id),
        metadata,
    }
}

/// The node for an entity.
pub fn entity_ref_with_origin(
    id: &str,
    kind: EntityKind,
    origin: Option<EntityOrigin>,
    metadata: Option<EntityMetadata>,
) -> (r: EntityRef)
    ensures
        r@ == node_for(id@, kind, origin, metadata),
{
    let origin: EntityOrigin = match origin {
        Some(origin) => origin,
        None => if starts_with(id, "rust-call://") || starts_with(id, "rust-method://") || starts_with(
            id,
            "elixir-call://",
        ) || starts_with(id, "elixir-module://") || starts_with(id, "erlang-module://") || starts_with(id, "unity://") {
            EntityOrigin::ExternalDependency
        } else {
            EntityOrigin::Source
        },
    };
    EntityRef {
        id: id.to_owned(),
        kind,
        name: entity_name(id),
        repository: repository(id),
        origin,
        test: is_test_entity(id),
        metadata,
    }
}

/// The node for an entity of which only the kind is known.
pub fn entity_ref(id: &str, kind: EntityKind) -> (r: EntityRef)
    ensures
        r@ == node_for(id@, kind, None, None),
{
    entity_ref_with_origin(id, kind, None, None)
}

} // verus!
