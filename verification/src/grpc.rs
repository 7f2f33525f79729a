//! Bindings of symbols to remote operations, resolved against the contracts in a view.

use crate::command::{cells, row_cells, text_cell, Cell, CellModel, Command, CommandModel};
use crate::domain::{
    grpc_role_name, grpc_role_name_text, rpc_cardinality, rpc_cardinality_names_distinct, rpc_cardinality_text, DependencyRelation, EntityFact, EntityKind, EntityMetadata,
    EntityModel, GrpcBindingRole, Observation, ObservationModel, RpcCardinality, SemanticRelation,
};
use crate::ids::TextSet;
use crate::normal::candidate_models;
use crate::records::{
    command_models, entity_columns, entity_models, observation_columns, observation_models, put_rows, record_rows, rows_behind, rows_put,
    CandidateModel, GrpcBindingCandidate, Record, RepositoryFacts,
};
use crate::rows::{cell_integer, integer, InspectionResult, InspectionValue};
use crate::sorted::{listed, texts, Key, SortedMap};
use crate::text::{first_occurrence, occurs_at, split_first, split_once, strip_prefix};
use crate::write_scripts::{PUT_GRPC_DIAGNOSTICS, PUT_REVISION_ENTITIES, PUT_REVISION_OBSERVATIONS};
use vstd::prelude::*;

verus! {

/// A remote operation that a contract declares, by service, method and cardinality.
pub open spec fn contract_of(entity: EntityModel) -> Option<Seq<Seq<char>>> {
    match entity.metadata {
        Some(EntityMetadata::ProtoMethod { cardinality }) => if "proto-method://"@.is_prefix_of(entity.id) {
            match split_first(entity.id.skip("proto-method://"@.len() as int), "/"@) {
                Some((service, method)) => Some(seq![service, method, rpc_cardinality_text(cardinality)]),
                None => None,
            }
        } else {
            None
        },
        _ => None,
    }
}

/// The contracts that some more entities declare.
pub open spec fn contracts_after(base: Map<Seq<Seq<char>>, Seq<char>>, list: Seq<EntityModel>) -> Map<Seq<Seq<char>>, Seq<char>>
    decreases list.len(),
{
    if list.len() == 0 {
        base
    } else {
        let before = contracts_after(base, list.drop_last());
        match contract_of(list.last()) {
            Some(key) => before.insert(key, list.last().id),
            None => before,
        }
    }
}

/// The contracts that the first repositories declare, with the entities that declare them.
pub open spec fn contracts(repositories: Seq<RepositoryFacts>, n: int) -> Map<Seq<Seq<char>>, Seq<char>>
    decreases n,
{
    if n <= 0 {
        Map::empty()
    } else {
        contracts_after(contracts(repositories, n - 1), entity_models(repositories[n - 1].entities@))
    }
}

/// Contracts by service, method and cardinality.
pub type Contracts = SortedMap<Vec<String>, String>;

/// The content of contracts.
pub open spec fn contract_ids(map: Map<Seq<Seq<char>>, String>) -> Map<Seq<Seq<char>>, Seq<char>> {
    Map::new(|key: Seq<Seq<char>>| map.contains_key(key), |key: Seq<Seq<char>>| map[key]@)
}

fn contract_key(entity: &EntityFact) -> (r: Option<Vec<String>>)
    ensures
        r is Some <==> contract_of(entity@) is Some,
        r is Some ==> texts(r->0@) == contract_of(entity@)->0,
{
    let cardinality: RpcCardinality = match entity.metadata {
        Some(EntityMetadata::ProtoMethod { cardinality }) => cardinality,
        _ => {
            return None;
        },
    };
    let rest: &str = match strip_prefix(entity.id.as_str(), "proto-method://") {
        Some(rest) => rest,
        None => {
            return None;
        },
    };
    assert(rest@ =~= entity.id@.skip("proto-method://"@.len() as int));
    match split_once(rest, "/") {
        Some((service, method)) => {
            let mut key: Vec<String> = Vec::new();
            key.push(service.to_owned());
            key.push(method.to_owned());
            key.push(rpc_cardinality(cardinality).to_owned());
            assert(texts(key@) =~= seq![service@, method@, rpc_cardinality_text(cardinality)]);
            Some(key)
        },
        None => None,
    }
}

fn add_contracts(map: &mut Contracts, list: &Vec<EntityFact>)
    requires
        old(map).wf(),
    ensures
        final(map).wf(),
        contract_ids(final(map)@) == contracts_after(contract_ids(old(map)@), entity_models(list@)),
{
    let ghost base = contract_ids(map@);
    let ghost all = entity_models(list@);
    let mut i: usize = 0;
    assert(all.take(0) =~= Seq::empty());
    while i < list.len()
        invariant
            i <= list@.len(),
            all == entity_models(list@),
            map.wf(),
            contract_ids(map@) == contracts_after(base, all.take(i as int)),
        decreases list@.len() - i,
    {
        proof {
            assert(all.take(i as int + 1).drop_last() =~= all.take(i as int));
            assert(all.take(i as int + 1).last() == list@[i as int]@);
        }
        match contract_key(&list[i]) {
            Some(key) => {
                let ghost before = map@;
                let ghost k = key.key();
                map.insert(key, list[i].id.clone());
                assert(contract_ids(map@) =~= contract_ids(before).insert(k, list@[i as int].id@));
            },
            None => {},
        }
        i = i + 1;
    }
    assert(all.take(all.len() as int) =~= all);
}

fn all_contracts(repositories: &Vec<RepositoryFacts>) -> (r: Contracts)
    ensures
        r.wf(),
        contract_ids(r@) == contracts(repositories@, repositories@.len() as int),
{
    let mut map: Contracts = SortedMap::new();
    let mut i: usize = 0;
    assert(contract_ids(map@) =~= Map::empty());
    while i < repositories.len()
        invariant
            i <= repositories@.len(),
            map.wf(),
            contract_ids(map@) == contracts(repositories@, i as int),
        decreases repositories@.len() - i,
    {
        add_contracts(&mut map, &repositories[i].entities);
        i = i + 1;
    }
    map
}

/// Why a candidate for a binding was not bound.
#[derive(Debug)]
pub struct GrpcDiagnostic {
    pub candidate: GrpcBindingCandidate,
    pub code: &'static str,
    pub detail: String,
}

/// The content of a [`GrpcDiagnostic`].
pub ghost struct GrpcDiagnosticModel {
    pub candidate: CandidateModel,
    pub code: Seq<char>,
    pub detail: Seq<char>,
}

impl View for GrpcDiagnostic {
    type V = GrpcDiagnosticModel;

    open spec fn view(&self) -> GrpcDiagnosticModel {
        GrpcDiagnosticModel { candidate: self.candidate@, code: self.code@, detail: self.detail@ }
    }
}

/// What is stored of a candidate that was not bound.
pub open spec fn grpc_diagnostic_texts(diagnostic: GrpcDiagnosticModel) -> Seq<Seq<char>> {
    seq![
        diagnostic.candidate.local_symbol,
        grpc_role_name_text(diagnostic.candidate.role),
        diagnostic.candidate.service,
        diagnostic.candidate.method,
        diagnostic.candidate.evidence,
        diagnostic.code,
        diagnostic.detail,
    ]
}

/// What is stored of a candidate that was not bound.
pub fn texts_of_grpc_diagnostic(diagnostic: &GrpcDiagnostic) -> (r: Vec<String>)
    ensures
        texts(r@) == grpc_diagnostic_texts(diagnostic@),
{
    let mut list: Vec<String> = Vec::new();
    list.push(diagnostic.candidate.local_symbol.clone());
    list.push(grpc_role_name(diagnostic.candidate.role).to_owned());
    list.push(diagnostic.candidate.service.clone());
    list.push(diagnostic.candidate.method.clone());
    list.push(diagnostic.candidate.evidence.clone());
    list.push(diagnostic.code.to_owned());
    list.push(diagnostic.detail.clone());
    assert(texts(list@) =~= grpc_diagnostic_texts(diagnostic@));
    list
}

impl Record for GrpcDiagnostic {
    open spec fn columns(&self) -> Seq<CellModel> {
        grpc_diagnostic_texts(self@).map_values(|text: Seq<char>| CellModel::Text(text))
    }

    fn row(&self) -> (r: Vec<Cell>) {
        let list: Vec<String> = texts_of_grpc_diagnostic(self);
        let mut row: Vec<Cell> = Vec::new();
        let mut i: usize = 0;
        while i < list.len()
            invariant
                i <= list@.len(),
                row@.len() == i,
                forall|k: int| 0 <= k < i ==> (#[trigger] row@[k])@ == CellModel::Text(list@[k]@),
            decreases list@.len() - i,
        {
            row.push(text_cell(list[i].as_str()));
            i = i + 1;
        }
        proof {
            assert(texts(list@).len() == list@.len());
            assert(cells(row@) =~= self.columns()) by {
                assert forall|k: int| 0 <= k < row@.len() implies #[trigger] cells(row@)[k] == self.columns()[k] by {
                    assert(texts(list@)[k] == list@[k]@);
                }
            }
        }
        row
    }
}

/// What resolving bindings came to: the remote operations that are bound, in order, what is
/// observed of them, and the candidates that were not bound.
pub struct GrpcResolution {
    pub operations: TextSet,
    pub observations: Vec<Observation>,
    pub diagnostics: Vec<GrpcDiagnostic>,
}

/// The content of a [`GrpcResolution`].
pub ghost struct ResolutionModel {
    pub operations: Set<Seq<Seq<char>>>,
    pub observations: Seq<ObservationModel>,
    pub diagnostics: Seq<GrpcDiagnosticModel>,
}

/// The content of diagnostics.
pub open spec fn grpc_diagnostic_models(list: Seq<GrpcDiagnostic>) -> Seq<GrpcDiagnosticModel> {
    list.map_values(|diagnostic: GrpcDiagnostic| diagnostic@)
}

impl View for GrpcResolution {
    type V = ResolutionModel;

    open spec fn view(&self) -> ResolutionModel {
        ResolutionModel {
            operations: self.operations@.dom(),
            observations: observation_models(self.observations@),
            diagnostics: grpc_diagnostic_models(self.diagnostics@),
        }
    }
}

/// The remote operation that a candidate is about.
pub open spec fn operation_of(candidate: CandidateModel) -> Seq<char> {
    "grpc://"@ + candidate.service + "/"@ + candidate.method
}

/// What is observed of a candidate.
pub open spec fn bound_by(candidate: CandidateModel, from: Seq<char>, relation: DependencyRelation, to: Seq<char>) -> ObservationModel {
    ObservationModel {
        from,
        relation: SemanticRelation::Dependency(relation),
        to,
        evidence: candidate.evidence,
        confidence: candidate.confidence,
        provenance: candidate.provenance,
    }
}

/// What is observed of a candidate that is bound to a contract.
pub open spec fn binding(candidate: CandidateModel, contract: Seq<char>) -> Seq<ObservationModel> {
    let operation = operation_of(candidate);
    seq![
        bound_by(candidate, operation, DependencyRelation::BindsContract, contract),
        match candidate.role {
            GrpcBindingRole::Client => bound_by(candidate, candidate.local_symbol, DependencyRelation::CallsRpc, operation),
            GrpcBindingRole::Server => bound_by(candidate, operation, DependencyRelation::ImplementedBy, candidate.local_symbol),
        },
    ]
}

/// What a candidate is looked up by.
pub open spec fn contract_wanted(candidate: CandidateModel) -> Seq<Seq<char>> {
    seq![candidate.service, candidate.method, rpc_cardinality_text(candidate.cardinality)]
}

/// Why a candidate is not bound, if it is not.
pub open spec fn unbound(contracts: Map<Seq<Seq<char>>, Seq<char>>, candidate: CandidateModel) -> Option<GrpcDiagnosticModel> {
    if candidate.cardinality != RpcCardinality::Unary {
        Some(
            GrpcDiagnosticModel {
                candidate,
                code: "grpc.cardinality_unsupported"@,
                detail: rpc_cardinality_text(candidate.cardinality) + " streaming is not supported in Phase 5"@,
            },
        )
    } else if !contracts.contains_key(contract_wanted(candidate)) {
        Some(
            GrpcDiagnosticModel {
                candidate,
                code: "grpc.contract_unmatched"@,
                detail: "no matching Protobuf method in the workspace view"@,
            },
        )
    } else {
        None
    }
}

/// What one more candidate adds.
pub open spec fn resolution_step(
    contracts: Map<Seq<Seq<char>>, Seq<char>>,
    before: ResolutionModel,
    candidate: CandidateModel,
) -> ResolutionModel {
    match unbound(contracts, candidate) {
        Some(diagnostic) => ResolutionModel { diagnostics: before.diagnostics.push(diagnostic), ..before },
        None => ResolutionModel {
            operations: before.operations.insert(seq![operation_of(candidate)]),
            observations: before.observations + binding(candidate, contracts[contract_wanted(candidate)]),
            ..before
        },
    }
}

/// What some more candidates add.
pub open spec fn resolved_after(
    contracts: Map<Seq<Seq<char>>, Seq<char>>,
    base: ResolutionModel,
    list: Seq<CandidateModel>,
) -> ResolutionModel
    decreases list.len(),
{
    if list.len() == 0 {
        base
    } else {
        resolution_step(contracts, resolved_after(contracts, base, list.drop_last()), list.last())
    }
}

/// What the candidates of the first repositories come to.
pub open spec fn resolved(contracts: Map<Seq<Seq<char>>, Seq<char>>, repositories: Seq<RepositoryFacts>, n: int) -> ResolutionModel
    decreases n,
{
    if n <= 0 {
        ResolutionModel { operations: Set::empty(), observations: Seq::empty(), diagnostics: Seq::empty() }
    } else {
        resolved_after(contracts, resolved(contracts, repositories, n - 1), candidate_models(repositories[n - 1].grpc_bindings@))
    }
}

/// What the candidates in some repositories come to, given the contracts there.
pub open spec fn resolution(repositories: Seq<RepositoryFacts>) -> ResolutionModel {
    let n = repositories.len() as int;
    resolved(contracts(repositories, n), repositories, n)
}

fn observe(candidate: &GrpcBindingCandidate, from: &str, relation: DependencyRelation, to: &str) -> (r: Observation)
    ensures
        r@ == bound_by(candidate@, from@, relation, to@),
{
    Observation {
        from: from.to_owned(),
        relation: SemanticRelation::Dependency(relation),
        to: to.to_owned(),
        evidence: candidate.evidence.clone(),
        confidence: candidate.confidence,
        provenance: candidate.provenance,
    }
}

impl GrpcResolution {
    /// Whether the parts of the resolution are in order.
    pub open spec fn wf(&self) -> bool {
        self.operations.wf()
    }

    fn report(&mut self, candidate: &GrpcBindingCandidate, code: &'static str, detail: String)
        requires
            old(self).wf(),
        ensures
            final(self).wf(),
            final(self)@ == (ResolutionModel {
                diagnostics: old(self)@.diagnostics.push(
                    GrpcDiagnosticModel { candidate: candidate@, code: code@, detail: detail@ },
                ),
                ..old(self)@
            }),
    {
        let ghost before = self.diagnostics@;
        self.diagnostics.push(GrpcDiagnostic { candidate: candidate.copy(), code, detail });
        assert(grpc_diagnostic_models(self.diagnostics@) =~= grpc_diagnostic_models(before).push(self.diagnostics@.last()@));
    }

    fn bind(&mut self, candidate: &GrpcBindingCandidate, contract: &str)
        requires
            old(self).wf(),
        ensures
            final(self).wf(),
            final(self)@ == (ResolutionModel {
                operations: old(self)@.operations.insert(seq![operation_of(candidate@)]),
                observations: old(self)@.observations + binding(candidate@, contract@),
                ..old(self)@
            }),
    {
        let ghost before = *self;
        let mut operation: String = "grpc://".to_owned();
        operation.append(candidate.service.as_str());
        operation.append("/");
        operation.append(candidate.method.as_str());
        self.observations.push(observe(candidate, operation.as_str(), DependencyRelation::BindsContract, contract));
        match candidate.role {
            GrpcBindingRole::Client => {
                self.observations.push(
                    observe(candidate, candidate.local_symbol.as_str(), DependencyRelation::CallsRpc, operation.as_str()),
                );
            },
            GrpcBindingRole::Server => {
                self.observations.push(
                    observe(candidate, operation.as_str(), DependencyRelation::ImplementedBy, candidate.local_symbol.as_str()),
                );
            },
        }
        let ghost name = operation@;
        self.operations.insert(operation, ());
        proof {
            assert(self.operations@.dom() =~= before.operations@.dom().insert(seq![name]));
            assert(observation_models(self.observations@) =~= observation_models(before.observations@) + binding(candidate@, contract@));
        }
    }

    fn resolve(&mut self, contracts: &Contracts, candidate: &GrpcBindingCandidate)
        requires
            old(self).wf(),
            contracts.wf(),
        ensures
            final(self).wf(),
            final(self)@ == resolution_step(contract_ids(contracts@), old(self)@, candidate@),
    {
        match candidate.cardinality {
            RpcCardinality::Unary => {},
            _ => {
                let mut detail: String = rpc_cardinality(candidate.cardinality).to_owned();
                detail.append(" streaming is not supported in Phase 5");
                self.report(candidate, "grpc.cardinality_unsupported", detail);
                return;
            },
        }
        let mut key: Vec<String> = Vec::new();
        key.push(candidate.service.clone());
        key.push(candidate.method.clone());
        key.push(rpc_cardinality(candidate.cardinality).to_owned());
        assert(texts(key@) =~= contract_wanted(candidate@));
        match contracts.get(&key) {
            Some(contract) => {
                self.bind(candidate, contract.as_str());
            },
            None => {
                self.report(
                    candidate,
                    "grpc.contract_unmatched",
                    "no matching Protobuf method in the workspace view".to_owned(),
                );
            },
        }
    }
}

/// Resolves the bindings in some repositories against the contracts there.
pub fn resolve_grpc_bindings(repositories: &Vec<RepositoryFacts>) -> (r: GrpcResolution)
    ensures
        r.wf(),
        r@ == resolution(repositories@),
{
    let contracts: Contracts = all_contracts(repositories);
    let ghost known = contract_ids(contracts@);
    let mut result: GrpcResolution = GrpcResolution { operations: SortedMap::new(), observations: Vec::new(), diagnostics: Vec::new() };
    let mut i: usize = 0;
    proof {
        let none = resolved(known, repositories@, 0);
        assert(result@.operations =~= none.operations);
        assert(result@.observations =~= none.observations);
        assert(result@.diagnostics =~= none.diagnostics);
    }
    while i < repositories.len()
        invariant
            i <= repositories@.len(),
            contracts.wf(),
            known == contract_ids(contracts@),
            result.wf(),
            result@ == resolved(known, repositories@, i as int),
        decreases repositories@.len() - i,
    {
        let list: &Vec<GrpcBindingCandidate> = &repositories[i].grpc_bindings;
        let ghost all = candidate_models(list@);
        let ghost base = result@;
        let mut j: usize = 0;
        assert(all.take(0) =~= Seq::empty());
        while j < list.len()
            invariant
                j <= list@.len(),
                all == candidate_models(list@),
                contracts.wf(),
                known == contract_ids(contracts@),
                result.wf(),
                result@ == resolved_after(known, base, all.take(j as int)),
            decreases list@.len() - j,
        {
            proof {
                assert(all.take(j as int + 1).drop_last() =~= all.take(j as int));
                assert(all.take(j as int + 1).last() == list@[j as int]@);
            }
            result.resolve(&contracts, &list[j]);
            j = j + 1;
        }
        assert(all.take(all.len() as int) =~= all);
        i = i + 1;
    }
    result
}

/// How many candidates the first repositories hold.
pub open spec fn candidate_count(repositories: Seq<RepositoryFacts>, n: int) -> nat
    decreases n,
{
    if n <= 0 {
        0
    } else {
        candidate_count(repositories, n - 1) + repositories[n - 1].grpc_bindings@.len()
    }
}

proof fn resolved_after_counts(contracts: Map<Seq<Seq<char>>, Seq<char>>, base: ResolutionModel, list: Seq<CandidateModel>)
    ensures
        ({
            let after = resolved_after(contracts, base, list);
            after.observations.len() + 2 * after.diagnostics.len() == base.observations.len() + 2 * base.diagnostics.len() + 2
                * list.len()
        }),
    decreases list.len(),
{
    if list.len() > 0 {
        resolved_after_counts(contracts, base, list.drop_last());
    }
}

proof fn resolved_counts(contracts: Map<Seq<Seq<char>>, Seq<char>>, repositories: Seq<RepositoryFacts>, n: int)
    requires
        0 <= n <= repositories.len(),
    ensures
        ({
            let after = resolved(contracts, repositories, n);
            after.observations.len() + 2 * after.diagnostics.len() == 2 * candidate_count(repositories, n)
        }),
    decreases n,
{
    if n > 0 {
        resolved_counts(contracts, repositories, n - 1);
        resolved_after_counts(
            contracts,
            resolved(contracts, repositories, n - 1),
            candidate_models(repositories[n - 1].grpc_bindings@),
        );
    }
}

/// Each candidate is either bound, which shows in two observations, or reported, which shows in
/// one diagnostic.
pub proof fn candidates_are_bound_or_reported(repositories: Seq<RepositoryFacts>)
    ensures
        resolution(repositories).observations.len() + 2 * resolution(repositories).diagnostics.len() == 2 * candidate_count(
            repositories,
            repositories.len() as int,
        ),
{
    let n = repositories.len() as int;
    resolved_counts(contracts(repositories, n), repositories, n);
}

/// Whether one of the repositories holds a candidate.
pub open spec fn holds_candidate(repositories: Seq<RepositoryFacts>, candidate: CandidateModel) -> bool {
    exists|i: int, j: int|
        0 <= i < repositories.len() && 0 <= j < repositories[i].grpc_bindings@.len() && (#[trigger] repositories[i].grpc_bindings@[j])@
            == candidate
}

/// Whether one of the repositories holds an entity.
pub open spec fn holds_entity(repositories: Seq<RepositoryFacts>, entity: EntityModel) -> bool {
    exists|i: int, j: int|
        0 <= i < repositories.len() && 0 <= j < repositories[i].entities@.len() && (#[trigger] repositories[i].entities@[j])@ == entity
}

/// Whether an entity declares a method that takes one message and answers with one.
pub open spec fn declares_unary(entity: EntityModel, service: Seq<char>, method: Seq<char>) -> bool {
    &&& !service.contains('/')
    &&& entity.id == "proto-method://"@ + service + "/"@ + method
    &&& entity.metadata == Some(EntityMetadata::ProtoMethod { cardinality: RpcCardinality::Unary })
}

proof fn slash_occurs(text: Seq<char>, from: int)
    requires
        0 <= from <= text.len(),
    ensures
        match first_occurrence(text, "/"@, from) {
            Some(at) => from <= at < text.len() && text[at] == '/' && forall|k: int| from <= k < at ==> text[k] != '/',
            None => forall|k: int| from <= k < text.len() ==> text[k] != '/',
        },
    decreases text.len() - from,
{
    reveal_strlit("/");
    if from < text.len() {
        if text[from] == '/' {
            assert(text.subrange(from, from + 1) =~= "/"@);
            assert(occurs_at(text, "/"@, from));
        } else {
            assert(!occurs_at(text, "/"@, from)) by {
                if occurs_at(text, "/"@, from) {
                    assert(text.subrange(from, from + 1)[0] == text[from]);
                }
            }
            slash_occurs(text, from + 1);
        }
    }
}

proof fn contract_is_declared(entity: EntityModel, service: Seq<char>, method: Seq<char>)
    ensures
        declares_unary(entity, service, method) <==> contract_of(entity) == Some(
            seq![service, method, rpc_cardinality_text(RpcCardinality::Unary)],
        ),
{
    reveal_strlit("/");
    let front = "proto-method://"@;
    let n = front.len() as int;
    let key = seq![service, method, rpc_cardinality_text(RpcCardinality::Unary)];
    if declares_unary(entity, service, method) {
        let rest = entity.id.skip(n);
        assert(entity.id.take(n) =~= front);
        assert(rest =~= service + "/"@ + method);
        slash_occurs(rest, 0);
        let at = service.len() as int;
        assert(rest[at] == '/');
        assert forall|k: int| 0 <= k < at implies rest[k] != '/' by {
            assert(service.contains(service[k]));
        }
        assert(first_occurrence(rest, "/"@, 0) == Some(at));
        assert(rest.take(at) =~= service);
        assert(rest.skip(at + 1) =~= method);
    }
    if contract_of(entity) == Some(key) {
        if let Some(EntityMetadata::ProtoMethod { cardinality }) = entity.metadata {
            let rest = entity.id.skip(n);
            slash_occurs(rest, 0);
            let at = first_occurrence(rest, "/"@, 0)->0;
            let found = contract_of(entity)->0;
            assert(found[0] == rest.take(at) && found[1] == rest.skip(at + 1) && found[2] == rpc_cardinality_text(cardinality));
            assert(key[0] == service && key[1] == method && key[2] == rpc_cardinality_text(RpcCardinality::Unary));
            rpc_cardinality_names_distinct(cardinality, RpcCardinality::Unary);
            assert(rest =~= service + "/"@ + method);
            assert(entity.id =~= front + rest);
            assert(entity.id =~= front + service + "/"@ + method);
            if service.contains('/') {
                let k = choose|k: int| 0 <= k < service.len() && service[k] == '/';
                assert(rest[k] == '/');
            }
        }
    }
}

/// Whether an entity among the first ones of some repositories is stored for a key.
spec fn stored_for(repositories: Seq<RepositoryFacts>, n: int, key: Seq<Seq<char>>, id: Seq<char>) -> bool {
    exists|i: int, j: int|
        0 <= i < n && 0 <= j < repositories[i].entities@.len() && contract_of((#[trigger] repositories[i].entities@[j])@) == Some(key)
            && repositories[i].entities@[j]@.id == id
}

proof fn contracts_after_hold(base: Map<Seq<Seq<char>>, Seq<char>>, list: Seq<EntityModel>, key: Seq<Seq<char>>)
    ensures
        contracts_after(base, list).contains_key(key) <==> base.contains_key(key) || exists|j: int|
            0 <= j < list.len() && contract_of(#[trigger] list[j]) == Some(key),
        contracts_after(base, list).contains_key(key) ==> (base.contains_key(key) && contracts_after(base, list)[key] == base[key])
            || exists|j: int|
            0 <= j < list.len() && contract_of(#[trigger] list[j]) == Some(key) && list[j].id == contracts_after(base, list)[key],
    decreases list.len(),
{
    if list.len() > 0 {
        let less = list.drop_last();
        contracts_after_hold(base, less, key);
        assert forall|j: int| 0 <= j < less.len() implies #[trigger] list[j] == less[j] by {}
        let n = list.len() - 1;
        assert(list.last() == list[n]);
        if contract_of(list[n]) == Some(key) {
            assert(contracts_after(base, list)[key] == list[n].id);
        } else if contracts_after(base, less).contains_key(key) {
            assert(contracts_after(base, list)[key] == contracts_after(base, less)[key]);
            if exists|j: int| 0 <= j < less.len() && contract_of(#[trigger] less[j]) == Some(key) && less[j].id == contracts_after(base, less)[key] {
                let j = choose|j: int|
                    0 <= j < less.len() && contract_of(#[trigger] less[j]) == Some(key) && less[j].id == contracts_after(base, less)[key];
                assert(contract_of(list[j]) == Some(key));
            }
        }
        if exists|j: int| 0 <= j < list.len() && contract_of(#[trigger] list[j]) == Some(key) {
            let j = choose|j: int| 0 <= j < list.len() && contract_of(#[trigger] list[j]) == Some(key);
            if j < n {
                assert(contract_of(less[j]) == Some(key));
            }
        }
        if exists|j: int| 0 <= j < less.len() && contract_of(#[trigger] less[j]) == Some(key) {
            let j = choose|j: int| 0 <= j < less.len() && contract_of(#[trigger] less[j]) == Some(key);
            assert(contract_of(list[j]) == Some(key));
        }
    }
}

proof fn contracts_hold(repositories: Seq<RepositoryFacts>, n: int, key: Seq<Seq<char>>)
    requires
        0 <= n <= repositories.len(),
    ensures
        contracts(repositories, n).contains_key(key) ==> stored_for(repositories, n, key, contracts(repositories, n)[key]),
        (exists|id: Seq<char>| stored_for(repositories, n, key, id)) ==> contracts(repositories, n).contains_key(key),
    decreases n,
{
    if n > 0 {
        contracts_hold(repositories, n - 1, key);
        let base = contracts(repositories, n - 1);
        let held = repositories[n - 1].entities@;
        let list = entity_models(held);
        contracts_after_hold(base, list, key);
        assert forall|j: int| 0 <= j < list.len() implies #[trigger] list[j] == held[j]@ by {}
        let all = contracts(repositories, n);
        if all.contains_key(key) {
            if base.contains_key(key) && all[key] == base[key] {
                let (i, j) = choose|i: int, j: int|
                    0 <= i < n - 1 && 0 <= j < repositories[i].entities@.len() && contract_of((#[trigger] repositories[i].entities@[j])@)
                        == Some(key) && repositories[i].entities@[j]@.id == base[key];
                assert(contract_of(repositories[i].entities@[j]@) == Some(key));
            } else {
                let j = choose|j: int| 0 <= j < list.len() && contract_of(#[trigger] list[j]) == Some(key) && list[j].id == all[key];
                assert(contract_of(repositories[n - 1].entities@[j]@) == Some(key));
            }
        }
        if exists|id: Seq<char>| stored_for(repositories, n, key, id) {
            let id = choose|id: Seq<char>| stored_for(repositories, n, key, id);
            let (i, j) = choose|i: int, j: int|
                0 <= i < n && 0 <= j < repositories[i].entities@.len() && contract_of((#[trigger] repositories[i].entities@[j])@) == Some(
                    key,
                ) && repositories[i].entities@[j]@.id == id;
            if i < n - 1 {
                assert(stored_for(repositories, n - 1, key, id));
            } else {
                assert(contract_of(list[j]) == Some(key));
            }
        }
    }
}

/// Whether an observation is made of a candidate.
#[verifier::opaque]
spec fn adds(known: Map<Seq<Seq<char>>, Seq<char>>, candidate: CandidateModel, observation: ObservationModel) -> bool {
    let made = binding(candidate, known[contract_wanted(candidate)]);
    unbound(known, candidate) is None && (observation == made[0] || observation == made[1])
}

/// Whether a resolution shows what became of a candidate.
#[verifier::opaque]
spec fn settles(model: ResolutionModel, known: Map<Seq<Seq<char>>, Seq<char>>, candidate: CandidateModel) -> bool {
    match unbound(known, candidate) {
        Some(diagnostic) => model.diagnostics.contains(diagnostic),
        None => {
            let made = binding(candidate, known[contract_wanted(candidate)]);
            &&& model.observations.contains(made[0])
            &&& model.observations.contains(made[1])
            &&& model.operations.contains(seq![operation_of(candidate)])
        },
    }
}

/// Whether a resolution holds all that another one holds.
#[verifier::opaque]
spec fn extends(more: ResolutionModel, less: ResolutionModel) -> bool {
    &&& forall|o: ObservationModel| less.observations.contains(o) ==> #[trigger] more.observations.contains(o)
    &&& forall|d: GrpcDiagnosticModel| less.diagnostics.contains(d) ==> #[trigger] more.diagnostics.contains(d)
    &&& forall|name: Seq<Seq<char>>| less.operations.contains(name) ==> #[trigger] more.operations.contains(name)
}

proof fn settled_stays(more: ResolutionModel, less: ResolutionModel, known: Map<Seq<Seq<char>>, Seq<char>>, candidate: CandidateModel)
    requires
        extends(more, less),
        settles(less, known, candidate),
    ensures
        settles(more, known, candidate),
{
    reveal(settles);
    reveal(extends);
}

proof fn step_settles(known: Map<Seq<Seq<char>>, Seq<char>>, before: ResolutionModel, candidate: CandidateModel)
    ensures
        ({
            let after = resolution_step(known, before, candidate);
            &&& extends(after, before)
            &&& settles(after, known, candidate)
            &&& forall|o: ObservationModel| #[trigger]
                after.observations.contains(o) ==> before.observations.contains(o) || adds(known, candidate, o)
            &&& forall|d: GrpcDiagnosticModel| #[trigger]
                after.diagnostics.contains(d) ==> before.diagnostics.contains(d) || unbound(known, candidate) == Some(d)
            &&& forall|name: Seq<Seq<char>>| #[trigger]
                after.operations.contains(name) ==> before.operations.contains(name) || (unbound(known, candidate) is None && name
                    == seq![operation_of(candidate)])
        }),
{
    reveal(settles);
    reveal(extends);
    reveal(adds);
    let after = resolution_step(known, before, candidate);
    match unbound(known, candidate) {
        Some(diagnostic) => {
            let n = before.diagnostics.len() as int;
            assert(after.diagnostics[n] == diagnostic);
            assert forall|d: GrpcDiagnosticModel| before.diagnostics.contains(d) implies #[trigger] after.diagnostics.contains(d) by {
                let k = choose|k: int| 0 <= k < n && before.diagnostics[k] == d;
                assert(after.diagnostics[k] == d);
            }
            assert forall|d: GrpcDiagnosticModel| #[trigger] after.diagnostics.contains(d) implies before.diagnostics.contains(d)
                || unbound(known, candidate) == Some(d) by {
                let k = choose|k: int| 0 <= k < after.diagnostics.len() && after.diagnostics[k] == d;
                if k < n {
                    assert(before.diagnostics[k] == d);
                }
            }
        },
        None => {
            let made = binding(candidate, known[contract_wanted(candidate)]);
            let n = before.observations.len() as int;
            assert(made.len() == 2);
            assert(after.observations[n] == made[0]);
            assert(after.observations[n + 1] == made[1]);
            assert forall|o: ObservationModel| before.observations.contains(o) implies #[trigger] after.observations.contains(o) by {
                let k = choose|k: int| 0 <= k < n && before.observations[k] == o;
                assert(after.observations[k] == o);
            }
            assert forall|o: ObservationModel| #[trigger] after.observations.contains(o) implies before.observations.contains(o) || adds(
                known,
                candidate,
                o,
            ) by {
                let k = choose|k: int| 0 <= k < after.observations.len() && after.observations[k] == o;
                if k < n {
                    assert(before.observations[k] == o);
                }
            }
        },
    }
}

/// What is left of a resolution without a base stems from some candidates, and all of those are
/// settled.
spec fn accounts(more: ResolutionModel, less: ResolutionModel, known: Map<Seq<Seq<char>>, Seq<char>>, list: Seq<CandidateModel>) -> bool {
    &&& extends(more, less)
    &&& forall|j: int| 0 <= j < list.len() ==> settles(more, known, #[trigger] list[j])
    &&& forall|o: ObservationModel| #[trigger]
        more.observations.contains(o) ==> less.observations.contains(o) || exists|j: int|
            0 <= j < list.len() && adds(known, #[trigger] list[j], o)
    &&& forall|d: GrpcDiagnosticModel| #[trigger]
        more.diagnostics.contains(d) ==> less.diagnostics.contains(d) || exists|j: int|
            0 <= j < list.len() && unbound(known, #[trigger] list[j]) == Some(d)
    &&& forall|name: Seq<Seq<char>>| #[trigger]
        more.operations.contains(name) ==> less.operations.contains(name) || exists|j: int|
            0 <= j < list.len() && unbound(known, #[trigger] list[j]) is None && name == seq![operation_of(list[j])]
}

proof fn resolved_after_accounts(known: Map<Seq<Seq<char>>, Seq<char>>, base: ResolutionModel, list: Seq<CandidateModel>)
    ensures
        accounts(resolved_after(known, base, list), base, known, list),
    decreases list.len(),
{
    if list.len() == 0 {
        reveal(extends);
    } else {
        let less = list.drop_last();
        let n = list.len() - 1;
        let before = resolved_after(known, base, less);
        let after = resolved_after(known, base, list);
        resolved_after_accounts(known, base, less);
        step_settles(known, before, list.last());
        assert(extends(after, base)) by {
            reveal(extends);
        }
        assert(list.last() == list[n]);
        assert forall|j: int| 0 <= j < list.len() implies settles(after, known, #[trigger] list[j]) by {
            if j < n {
                assert(less[j] == list[j]);
                settled_stays(after, before, known, list[j]);
            }
        }
        assert forall|o: ObservationModel| #[trigger] after.observations.contains(o) implies base.observations.contains(o) || exists|j: int|
            0 <= j < list.len() && adds(known, #[trigger] list[j], o) by {
            if before.observations.contains(o) && !base.observations.contains(o) {
                let j = choose|j: int| 0 <= j < less.len() && adds(known, #[trigger] less[j], o);
                assert(adds(known, list[j], o));
            }
        }
        assert forall|d: GrpcDiagnosticModel| #[trigger] after.diagnostics.contains(d) implies base.diagnostics.contains(d) || exists|j: int|
            0 <= j < list.len() && unbound(known, #[trigger] list[j]) == Some(d) by {
            if before.diagnostics.contains(d) && !base.diagnostics.contains(d) {
                let j = choose|j: int| 0 <= j < less.len() && unbound(known, #[trigger] less[j]) == Some(d);
                assert(unbound(known, list[j]) == Some(d));
            }
        }
        assert forall|name: Seq<Seq<char>>| #[trigger] after.operations.contains(name) implies base.operations.contains(name)
            || exists|j: int|
            0 <= j < list.len() && unbound(known, #[trigger] list[j]) is None && name == seq![operation_of(list[j])] by {
            if before.operations.contains(name) && !base.operations.contains(name) {
                let j = choose|j: int|
                    0 <= j < less.len() && unbound(known, #[trigger] less[j]) is None && name == seq![operation_of(less[j])];
                assert(unbound(known, list[j]) is None);
            }
        }
    }
}

/// Whether one of the first repositories holds a candidate.
#[verifier::opaque]
spec fn holds_among(repositories: Seq<RepositoryFacts>, n: int, candidate: CandidateModel) -> bool {
    exists|i: int, j: int|
        0 <= i < n && 0 <= j < repositories[i].grpc_bindings@.len() && (#[trigger] repositories[i].grpc_bindings@[j])@ == candidate
}

proof fn held_among_more(repositories: Seq<RepositoryFacts>, n: int, candidate: CandidateModel)
    requires
        0 < n <= repositories.len(),
        holds_among(repositories, n - 1, candidate),
    ensures
        holds_among(repositories, n, candidate),
{
    reveal(holds_among);
    let (i, j) = choose|i: int, j: int|
        0 <= i < n - 1 && 0 <= j < repositories[i].grpc_bindings@.len() && (#[trigger] repositories[i].grpc_bindings@[j])@ == candidate;
    assert(repositories[i].grpc_bindings@[j]@ == candidate);
}

proof fn last_is_held(repositories: Seq<RepositoryFacts>, n: int, j: int)
    requires
        0 < n <= repositories.len(),
        0 <= j < candidate_models(repositories[n - 1].grpc_bindings@).len(),
    ensures
        holds_among(repositories, n, candidate_models(repositories[n - 1].grpc_bindings@)[j]),
{
    reveal(holds_among);
    assert(repositories[n - 1].grpc_bindings@[j]@ == candidate_models(repositories[n - 1].grpc_bindings@)[j]);
}

proof fn held_are_settled(known: Map<Seq<Seq<char>>, Seq<char>>, repositories: Seq<RepositoryFacts>, n: int, c: CandidateModel)
    requires
        0 <= n <= repositories.len(),
        holds_among(repositories, n, c),
    ensures
        settles(resolved(known, repositories, n), known, c),
    decreases n,
{
    let (i, j) = choose|i: int, j: int|
        0 <= i < n && 0 <= j < repositories[i].grpc_bindings@.len() && (#[trigger] repositories[i].grpc_bindings@[j])@ == c;
    assert(0 <= i < n && 0 <= j < repositories[i].grpc_bindings@.len() && repositories[i].grpc_bindings@[j]@ == c) by {
        reveal(holds_among);
    }
    let before = resolved(known, repositories, n - 1);
    let list = candidate_models(repositories[n - 1].grpc_bindings@);
    resolved_after_accounts(known, before, list);
    if i < n - 1 {
        assert(holds_among(repositories, n - 1, c)) by {
            reveal(holds_among);
        }
        held_are_settled(known, repositories, n - 1, c);
        settled_stays(resolved(known, repositories, n), before, known, c);
    } else {
        assert(list[j] == c);
    }
}

proof fn observed_stems(known: Map<Seq<Seq<char>>, Seq<char>>, repositories: Seq<RepositoryFacts>, n: int, o: ObservationModel) -> (c: CandidateModel)
    requires
        0 <= n <= repositories.len(),
        resolved(known, repositories, n).observations.contains(o),
    ensures
        holds_among(repositories, n, c),
        adds(known, c, o),
    decreases n,
{
    let before = resolved(known, repositories, n - 1);
    let list = candidate_models(repositories[n - 1].grpc_bindings@);
    resolved_after_accounts(known, before, list);
    if before.observations.contains(o) {
        let c = observed_stems(known, repositories, n - 1, o);
        held_among_more(repositories, n, c);
        c
    } else {
        let j = choose|j: int| 0 <= j < list.len() && adds(known, #[trigger] list[j], o);
        last_is_held(repositories, n, j);
        list[j]
    }
}

proof fn reported_stems(known: Map<Seq<Seq<char>>, Seq<char>>, repositories: Seq<RepositoryFacts>, n: int, d: GrpcDiagnosticModel) -> (c: CandidateModel)
    requires
        0 <= n <= repositories.len(),
        resolved(known, repositories, n).diagnostics.contains(d),
    ensures
        holds_among(repositories, n, c),
        unbound(known, c) == Some(d),
    decreases n,
{
    let before = resolved(known, repositories, n - 1);
    let list = candidate_models(repositories[n - 1].grpc_bindings@);
    resolved_after_accounts(known, before, list);
    if before.diagnostics.contains(d) {
        let c = reported_stems(known, repositories, n - 1, d);
        held_among_more(repositories, n, c);
        c
    } else {
        let j = choose|j: int| 0 <= j < list.len() && unbound(known, #[trigger] list[j]) == Some(d);
        last_is_held(repositories, n, j);
        list[j]
    }
}

proof fn operation_stems(known: Map<Seq<Seq<char>>, Seq<char>>, repositories: Seq<RepositoryFacts>, n: int, name: Seq<Seq<char>>) -> (c: CandidateModel)
    requires
        0 <= n <= repositories.len(),
        resolved(known, repositories, n).operations.contains(name),
    ensures
        holds_among(repositories, n, c),
        unbound(known, c) is None,
        name == seq![operation_of(c)],
    decreases n,
{
    let before = resolved(known, repositories, n - 1);
    let list = candidate_models(repositories[n - 1].grpc_bindings@);
    resolved_after_accounts(known, before, list);
    if before.operations.contains(name) {
        let c = operation_stems(known, repositories, n - 1, name);
        held_among_more(repositories, n, c);
        c
    } else {
        let j = choose|j: int| 0 <= j < list.len() && unbound(known, #[trigger] list[j]) is None && name == seq![operation_of(list[j])];
        last_is_held(repositories, n, j);
        list[j]
    }
}

proof fn held_is_held(repositories: Seq<RepositoryFacts>, c: CandidateModel)
    ensures
        holds_candidate(repositories, c) <==> holds_among(repositories, repositories.len() as int, c),
{
    reveal(holds_among);
}

proof fn bound_is_shown(repositories: Seq<RepositoryFacts>, c: CandidateModel, contract: EntityModel)
    requires
        holds_candidate(repositories, c),
        holds_entity(repositories, contract),
        c.cardinality == RpcCardinality::Unary,
        declares_unary(contract, c.service, c.method),
    ensures
        ({
            let found = resolution(repositories);
            let made = binding(c, contract.id);
            &&& found.observations.contains(made[0])
            &&& found.observations.contains(made[1])
            &&& found.operations.contains(seq![operation_of(c)])
        }),
{
    let n = repositories.len() as int;
    let known = contracts(repositories, n);
    held_is_held(repositories, c);
    held_are_settled(known, repositories, n, c);
    unary_is_bound(repositories, c);
    reveal(settles);
}

proof fn unary_is_bound(repositories: Seq<RepositoryFacts>, candidate: CandidateModel)
    requires
        candidate.cardinality == RpcCardinality::Unary,
    ensures
        ({
            let known = contracts(repositories, repositories.len() as int);
            let declared = exists|entity: EntityModel| #[trigger]
                holds_entity(repositories, entity) && declares_unary(entity, candidate.service, candidate.method);
            &&& unbound(known, candidate) is None <==> declared
            &&& declared ==> known[contract_wanted(candidate)] == "proto-method://"@ + candidate.service + "/"@ + candidate.method
        }),
{
    let n = repositories.len() as int;
    let known = contracts(repositories, n);
    let key = contract_wanted(candidate);
    contracts_hold(repositories, n, key);
    if known.contains_key(key) {
        let (i, j) = choose|i: int, j: int|
            0 <= i < n && 0 <= j < repositories[i].entities@.len() && contract_of((#[trigger] repositories[i].entities@[j])@) == Some(key)
                && repositories[i].entities@[j]@.id == known[key];
        let entity = repositories[i].entities@[j]@;
        contract_is_declared(entity, candidate.service, candidate.method);
        assert(holds_entity(repositories, entity));
    }
    if exists|entity: EntityModel| #[trigger]
        holds_entity(repositories, entity) && declares_unary(entity, candidate.service, candidate.method) {
        let entity = choose|entity: EntityModel| #[trigger]
            holds_entity(repositories, entity) && declares_unary(entity, candidate.service, candidate.method);
        let (i, j) = choose|i: int, j: int|
            0 <= i < repositories.len() && 0 <= j < repositories[i].entities@.len() && (#[trigger] repositories[i].entities@[j])@ == entity;
        contract_is_declared(entity, candidate.service, candidate.method);
        assert(contract_of(repositories[i].entities@[j]@) == Some(key));
        assert(stored_for(repositories, n, key, entity.id));
    }
}

/// Where a view holds the contract of a method with one message each way, a client of the method
/// leads to the remote operation, and the remote operation leads to each server of the method and
/// to the contract. Each step is observed with the evidence, the confidence and the provenance of
/// the candidate that it stems from.
pub proof fn clients_lead_to_servers(
    repositories: Seq<RepositoryFacts>,
    client: CandidateModel,
    server: CandidateModel,
    contract: EntityModel,
)
    requires
        holds_candidate(repositories, client),
        holds_candidate(repositories, server),
        holds_entity(repositories, contract),
        client.role == GrpcBindingRole::Client,
        server.role == GrpcBindingRole::Server,
        client.cardinality == RpcCardinality::Unary,
        server.cardinality == RpcCardinality::Unary,
        client.service == server.service,
        client.method == server.method,
        declares_unary(contract, client.service, client.method),
    ensures
        ({
            let found = resolution(repositories);
            let operation = "grpc://"@ + client.service + "/"@ + client.method;
            &&& found.operations.contains(seq![operation])
            &&& found.observations.contains(
                ObservationModel {
                    from: client.local_symbol,
                    relation: SemanticRelation::Dependency(DependencyRelation::CallsRpc),
                    to: operation,
                    evidence: client.evidence,
                    confidence: client.confidence,
                    provenance: client.provenance,
                },
            )
            &&& found.observations.contains(
                ObservationModel {
                    from: operation,
                    relation: SemanticRelation::Dependency(DependencyRelation::ImplementedBy),
                    to: server.local_symbol,
                    evidence: server.evidence,
                    confidence: server.confidence,
                    provenance: server.provenance,
                },
            )
            &&& found.observations.contains(
                ObservationModel {
                    from: operation,
                    relation: SemanticRelation::Dependency(DependencyRelation::BindsContract),
                    to: contract.id,
                    evidence: client.evidence,
                    confidence: client.confidence,
                    provenance: client.provenance,
                },
            )
            &&& found.observations.contains(
                ObservationModel {
                    from: operation,
                    relation: SemanticRelation::Dependency(DependencyRelation::BindsContract),
                    to: contract.id,
                    evidence: server.evidence,
                    confidence: server.confidence,
                    provenance: server.provenance,
                },
            )
        }),
{
    bound_is_shown(repositories, client, contract);
    bound_is_shown(repositories, server, contract);
}

/// All that is observed of remote operations stems from a candidate with one message each way
/// whose contract the view holds: a client calls the operation, an operation is implemented by a
/// server, and an operation binds its contract. Nothing else is observed.
pub proof fn observations_join_candidates_to_contracts(repositories: Seq<RepositoryFacts>, observation: ObservationModel)
    requires
        resolution(repositories).observations.contains(observation),
    ensures
        exists|c: CandidateModel, contract: EntityModel| #[trigger]
            holds_candidate(repositories, c) && #[trigger] holds_entity(repositories, contract) && c.cardinality
                == RpcCardinality::Unary && declares_unary(contract, c.service, c.method) && observation.evidence == c.evidence
                && observation.confidence == c.confidence && observation.provenance == c.provenance && ({
                let operation = "grpc://"@ + c.service + "/"@ + c.method;
                ||| observation.relation == SemanticRelation::Dependency(DependencyRelation::CallsRpc) && c.role
                    == GrpcBindingRole::Client && observation.from == c.local_symbol && observation.to == operation
                ||| observation.relation == SemanticRelation::Dependency(DependencyRelation::ImplementedBy) && c.role
                    == GrpcBindingRole::Server && observation.from == operation && observation.to == c.local_symbol
                ||| observation.relation == SemanticRelation::Dependency(DependencyRelation::BindsContract) && observation.from
                    == operation && observation.to == contract.id
            }),
{
    let n = repositories.len() as int;
    let known = contracts(repositories, n);
    let c = observed_stems(known, repositories, n, observation);
    held_is_held(repositories, c);
    reveal(adds);
    unary_is_bound(repositories, c);
    let contract = choose|entity: EntityModel| #[trigger]
        holds_entity(repositories, entity) && declares_unary(entity, c.service, c.method);
    assert(holds_entity(repositories, contract) && declares_unary(contract, c.service, c.method));
}

/// A candidate is reported exactly if it streams, or if the view does not hold its contract, and
/// the report says which. The operation of every other candidate is known, and no other operation
/// is.
pub proof fn reports_say_what_is_not_bound(repositories: Seq<RepositoryFacts>)
    ensures
        forall|c: CandidateModel| #[trigger]
            holds_candidate(repositories, c) ==> {
                let found = resolution(repositories);
                let declared = exists|entity: EntityModel| #[trigger]
                    holds_entity(repositories, entity) && declares_unary(entity, c.service, c.method);
                if c.cardinality != RpcCardinality::Unary {
                    found.diagnostics.contains(
                        GrpcDiagnosticModel {
                            candidate: c,
                            code: "grpc.cardinality_unsupported"@,
                            detail: rpc_cardinality_text(c.cardinality) + " streaming is not supported in Phase 5"@,
                        },
                    )
                } else if !declared {
                    found.diagnostics.contains(
                        GrpcDiagnosticModel {
                            candidate: c,
                            code: "grpc.contract_unmatched"@,
                            detail: "no matching Protobuf method in the workspace view"@,
                        },
                    )
                } else {
                    found.operations.contains(seq!["grpc://"@ + c.service + "/"@ + c.method])
                }
            },
        forall|d: GrpcDiagnosticModel| #[trigger]
            resolution(repositories).diagnostics.contains(d) ==> holds_candidate(repositories, d.candidate) && (d.candidate.cardinality
                != RpcCardinality::Unary || !exists|entity: EntityModel| #[trigger]
                holds_entity(repositories, entity) && declares_unary(entity, d.candidate.service, d.candidate.method)),
        forall|name: Seq<Seq<char>>| #[trigger]
            resolution(repositories).operations.contains(name) ==> exists|c: CandidateModel| #[trigger]
                holds_candidate(repositories, c) && c.cardinality == RpcCardinality::Unary && name == seq![
                    "grpc://"@ + c.service + "/"@ + c.method,
                ] && exists|entity: EntityModel| #[trigger]
                    holds_entity(repositories, entity) && declares_unary(entity, c.service, c.method),
{
    let n = repositories.len() as int;
    let known = contracts(repositories, n);
    let found = resolution(repositories);
    assert forall|c: CandidateModel| #[trigger] holds_candidate(repositories, c) implies {
        let declared = exists|entity: EntityModel| #[trigger]
            holds_entity(repositories, entity) && declares_unary(entity, c.service, c.method);
        if c.cardinality != RpcCardinality::Unary {
            found.diagnostics.contains(
                GrpcDiagnosticModel {
                    candidate: c,
                    code: "grpc.cardinality_unsupported"@,
                    detail: rpc_cardinality_text(c.cardinality) + " streaming is not supported in Phase 5"@,
                },
            )
        } else if !declared {
            found.diagnostics.contains(
                GrpcDiagnosticModel {
                    candidate: c,
                    code: "grpc.contract_unmatched"@,
                    detail: "no matching Protobuf method in the workspace view"@,
                },
            )
        } else {
            found.operations.contains(seq!["grpc://"@ + c.service + "/"@ + c.method])
        }
    } by {
        held_is_held(repositories, c);
        held_are_settled(known, repositories, n, c);
        reveal(settles);
        if c.cardinality == RpcCardinality::Unary {
            unary_is_bound(repositories, c);
        }
    }
    assert forall|d: GrpcDiagnosticModel| #[trigger] found.diagnostics.contains(d) implies holds_candidate(repositories, d.candidate) && (
    d.candidate.cardinality != RpcCardinality::Unary || !exists|entity: EntityModel| #[trigger]
        holds_entity(repositories, entity) && declares_unary(entity, d.candidate.service, d.candidate.method)) by {
        let c = reported_stems(known, repositories, n, d);
        held_is_held(repositories, c);
        if c.cardinality == RpcCardinality::Unary {
            unary_is_bound(repositories, c);
        }
    }
    assert forall|name: Seq<Seq<char>>| #[trigger] found.operations.contains(name) implies exists|c: CandidateModel| #[trigger]
        holds_candidate(repositories, c) && c.cardinality == RpcCardinality::Unary && name == seq![
            "grpc://"@ + c.service + "/"@ + c.method,
        ] && exists|entity: EntityModel| #[trigger] holds_entity(repositories, entity) && declares_unary(entity, c.service, c.method) by {
        let c = operation_stems(known, repositories, n, name);
        held_is_held(repositories, c);
        unary_is_bound(repositories, c);
    }
}

/// The entity that a remote operation is.
pub open spec fn operation_entity(key: Seq<Seq<char>>) -> EntityModel {
    EntityModel { id: key[0], kind: EntityKind::GrpcOperation, metadata: None }
}

/// The entities that remote operations are.
pub open spec fn operation_entities(operations: Set<Seq<Seq<char>>>) -> Seq<EntityModel> {
    listed(operations).map_values(|key: Seq<Seq<char>>| operation_entity(key))
}

/// The entities that remote operations are.
pub fn entities_of_operations(operations: &TextSet) -> (r: Vec<EntityFact>)
    requires
        operations.wf(),
    ensures
        entity_models(r@) == operation_entities(operations@.dom()),
{
    let mut list: Vec<EntityFact> = Vec::new();
    let mut i: usize = 0;
    while i < operations.keys.len()
        invariant
            i <= operations.keys@.len(),
            list@.len() == i,
            forall|k: int| 0 <= k < i ==> (#[trigger] list@[k])@ == (EntityModel {
                id: operations.keys@[k]@,
                kind: EntityKind::GrpcOperation,
                metadata: None,
            }),
        decreases operations.keys@.len() - i,
    {
        list.push(EntityFact { id: operations.keys[i].clone(), kind: EntityKind::GrpcOperation, metadata: None });
        i = i + 1;
    }
    proof {
        operations.lists_its_keys();
        let wanted = operation_entities(operations@.dom());
        assert(entity_models(list@) =~= wanted) by {
            assert forall|k: int| 0 <= k < list@.len() implies #[trigger] entity_models(list@)[k] == wanted[k] by {
                assert(operations.listing()[k] == seq![operations.keys@[k]@]);
            }
        }
    }
    list
}

/// What the rows of a revision begin with.
pub open spec fn revision_front(view: Seq<char>, revision: int) -> Seq<CellModel> {
    seq![CellModel::Text(view), CellModel::Integer(revision)]
}

/// What the rows of a revision begin with.
pub fn front_of_revision(view: &str, revision: i64) -> (r: Vec<Cell>)
    ensures
        cells(r@) == revision_front(view@, revision as int),
{
    let mut front: Vec<Cell> = Vec::new();
    front.push(text_cell(view));
    front.push(Cell::Integer(revision));
    assert(cells(front@) =~= revision_front(view@, revision as int));
    front
}

/// The integer in the first column of the first row.
pub open spec fn first_integer(rows: Seq<Vec<InspectionValue>>) -> Option<int> {
    if rows.len() == 0 {
        None
    } else {
        cell_integer(rows[0]@, 0)
    }
}

/// The integer in the first column of the first row.
pub fn first_integer_of(rows: &Vec<Vec<InspectionValue>>) -> (r: Option<i64>)
    ensures
        r is Some <==> first_integer(rows@) is Some,
        r is Some ==> r->0 == first_integer(rows@)->0,
{
    if rows.len() == 0 {
        None
    } else {
        integer(&rows[0], 0)
    }
}

/// A script that takes rows, unless there are none.
pub open spec fn put_unless_empty(script: Seq<char>, rows: Seq<Seq<CellModel>>) -> Seq<CommandModel> {
    if rows.len() == 0 {
        Seq::empty()
    } else {
        seq![rows_put(script, rows)]
    }
}

/// A script that takes rows, unless there are none.
pub fn add_unless_empty(commands: &mut Vec<Command>, script: &str, rows: Vec<Vec<Cell>>)
    ensures
        command_models(final(commands)@) == command_models(old(commands)@) + put_unless_empty(script@, row_cells(rows@)),
{
    let ghost before = commands@;
    assert(row_cells(rows@).len() == rows@.len());
    if rows.len() > 0 {
        commands.push(put_rows(script, rows));
    }
    assert(command_models(commands@) =~= command_models(before) + put_unless_empty(script@, row_cells(rows@)));
}

/// The rows of entities in a revision.
pub open spec fn entity_rows(front: Seq<CellModel>, list: Seq<EntityModel>) -> Seq<Seq<CellModel>> {
    list.map_values(|entity: EntityModel| front + entity_columns(entity))
}

/// The rows of observations in a revision.
pub open spec fn observed_rows(front: Seq<CellModel>, list: Seq<ObservationModel>) -> Seq<Seq<CellModel>> {
    list.map_values(|observation: ObservationModel| front + observation_columns(observation))
}

/// The rows of candidates that were not bound in a revision.
pub open spec fn reported_rows(front: Seq<CellModel>, list: Seq<GrpcDiagnosticModel>) -> Seq<Seq<CellModel>> {
    list.map_values(
        |diagnostic: GrpcDiagnosticModel|
            front + grpc_diagnostic_texts(diagnostic).map_values(|text: Seq<char>| CellModel::Text(text)),
    )
}

/// What stores resolved bindings in a revision.
pub open spec fn resolution_stored(view: Seq<char>, revision: int, model: ResolutionModel) -> Seq<CommandModel> {
    let front = revision_front(view, revision);
    put_unless_empty(PUT_REVISION_ENTITIES@, entity_rows(front, operation_entities(model.operations))) + put_unless_empty(
        PUT_REVISION_OBSERVATIONS@,
        observed_rows(front, model.observations),
    ) + put_unless_empty(PUT_GRPC_DIAGNOSTICS@, reported_rows(front, model.diagnostics))
}

/// Stores resolved bindings in a revision.
pub fn store_resolution(view: &str, revision: i64, resolution: &GrpcResolution) -> (r: Vec<Command>)
    requires
        resolution.wf(),
    ensures
        command_models(r@) == resolution_stored(view@, revision as int, resolution@),
{
    let front: Vec<Cell> = front_of_revision(view, revision);
    let mut commands: Vec<Command> = Vec::new();
    let operations: Vec<EntityFact> = entities_of_operations(&resolution.operations);
    proof {
        assert(record_rows(cells(front@), operations@) =~= entity_rows(cells(front@), entity_models(operations@)));
        assert(record_rows(cells(front@), resolution.observations@) =~= observed_rows(
            cells(front@),
            observation_models(resolution.observations@),
        ));
        assert(record_rows(cells(front@), resolution.diagnostics@) =~= reported_rows(
            cells(front@),
            grpc_diagnostic_models(resolution.diagnostics@),
        ));
        assert(command_models(commands@) =~= Seq::empty());
    }
    add_unless_empty(&mut commands, PUT_REVISION_ENTITIES, rows_behind(&front, &operations));
    add_unless_empty(&mut commands, PUT_REVISION_OBSERVATIONS, rows_behind(&front, &resolution.observations));
    add_unless_empty(&mut commands, PUT_GRPC_DIAGNOSTICS, rows_behind(&front, &resolution.diagnostics));
    assert(command_models(commands@) =~= resolution_stored(view@, revision as int, resolution@));
    commands
}

/// Stores resolved bindings in the revision that a view shows.
pub fn store_grpc_resolution(view: &str, revision: &InspectionResult, resolution: &GrpcResolution) -> (r: Result<Vec<Command>, String>)
    requires
        resolution.wf(),
    ensures
        r is Ok <==> first_integer(revision.rows@) is Some,
        r is Ok ==> command_models(r->Ok_0@) == resolution_stored(view@, first_integer(revision.rows@)->0, resolution@),
        r is Err ==> r->Err_0@ == "published analysis revision is missing"@,
{
    match first_integer_of(&revision.rows) {
        Some(revision) => Ok(store_resolution(view, revision, resolution)),
        None => Err("published analysis revision is missing".to_owned()),
    }
}

} // verus!
