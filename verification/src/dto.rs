//! What queries on the semantic graph return.

use crate::domain::{optional_text, AnalysisDiagnosticSeverity, EntityMetadata};
use vstd::prelude::*;

verus! {

/// What a node of a query result is.
#[derive(Clone, Copy, PartialEq, Eq, Structural, Debug)]
pub enum EntityKind {
    Unknown,
    Namespace,
    Callable,
    GraphqlArgument,
    GraphqlEnumValue,
    GraphqlField,
    GraphqlOperation,
    GraphqlType,
    KafkaTopic,
    Rpc,
    Service,
    ProtoEnum,
    ProtoField,
    ProtoFile,
    ProtoMessage,
    ProtoService,
    UnityPrefab,
}

/// Where an entity comes from.
#[derive(Clone, Copy, PartialEq, Eq, Structural, Debug)]
pub enum EntityOrigin {
    Source,
    Generated,
    ExternalDependency,
}

/// A node of a query result.
#[derive(Debug)]
pub struct EntityRef {
    pub id: String,
    pub kind: EntityKind,
    pub name: String,
    pub repository: Option<String>,
    pub origin: EntityOrigin,
    pub test: bool,
    pub metadata: Option<EntityMetadata>,
}

/// The content of an [`EntityRef`].
pub ghost struct EntityRefModel {
    pub id: Seq<char>,
    pub kind: EntityKind,
    pub name: Seq<char>,
    pub repository: Option<Seq<char>>,
    pub origin: EntityOrigin,
    pub test: bool,
    pub metadata: Option<EntityMetadata>,
}

impl View for EntityRef {
    type V = EntityRefModel;

    open spec fn view(&self) -> EntityRefModel {
        EntityRefModel {
            id: self.id@,
            kind: self.kind,
            name: self.name@,
            repository: optional_text(self.repository),
            origin: self.origin,
            test: self.test,
            metadata: self.metadata,
        }
    }
}

/// A copy of an optional text.
pub fn copy_text(text: &Option<String>) -> (r: Option<String>)
    ensures
        optional_text(r) == optional_text(*text),
{
    match text {
        Some(s) => Some(s.clone()),
        None => None,
    }
}

impl EntityRef {
    /// A copy with the same content.
    pub fn copy(&self) -> (r: EntityRef)
        ensures
            r@ == self@,
    {
        EntityRef {
            id: self.id.clone(),
            kind: self.kind,
            name: self.name.clone(),
            repository: copy_text(&self.repository),
            origin: self.origin,
            test: self.test,
            metadata: self.metadata,
        }
    }
}

/// Something that an analysis of a repository could not do in full.
#[derive(Debug)]
pub struct AnalysisDiagnostic {
    pub repository: String,
    pub code: String,
    pub severity: AnalysisDiagnosticSeverity,
    pub path: String,
    pub line: Option<u32>,
    pub detail: Option<String>,
}

/// The content of an [`AnalysisDiagnostic`].
pub ghost struct RepositoryDiagnosticModel {
    pub repository: Seq<char>,
    pub code: Seq<char>,
    pub severity: AnalysisDiagnosticSeverity,
    pub path: Seq<char>,
    pub line: Option<u32>,
    pub detail: Option<Seq<char>>,
}

impl View for AnalysisDiagnostic {
    type V = RepositoryDiagnosticModel;

    open spec fn view(&self) -> RepositoryDiagnosticModel {
        RepositoryDiagnosticModel {
            repository: self.repository@,
            code: self.code@,
            severity: self.severity,
            path: self.path@,
            line: self.line,
            detail: optional_text(self.detail),
        }
    }
}

/// Whether an analysis covers all that it should.
#[derive(Clone, Copy, PartialEq, Eq, Structural, Debug)]
pub enum AnalysisCompleteness {
    Complete,
    Incomplete,
}

/// How many diagnostics there are, in all and of each severity.
#[derive(Clone, Copy, PartialEq, Eq, Structural, Debug)]
pub struct DiagnosticCounts {
    pub total: u64,
    pub known_limitations: u64,
    pub warnings: u64,
}

/// What is known of an analysis.
#[derive(Debug)]
pub struct AnalysisMetadata {
    pub completeness: AnalysisCompleteness,
    pub diagnostic_counts: DiagnosticCounts,
    pub diagnostics: Vec<AnalysisDiagnostic>,
}

/// What is known of the analysis of a repository by itself.
#[derive(Debug)]
pub struct RepositoryRevision {
    pub source_state: String,
    pub head: Option<String>,
    pub analysis_identity: String,
    pub analysis: AnalysisMetadata,
}

} // verus!
