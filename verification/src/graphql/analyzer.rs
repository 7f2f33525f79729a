//! Analysing the GraphQL documents of a workspace.

use super::{source_models, GraphqlFacts, GraphqlSource, SourceModel};
use crate::domain::{AnalysisDiagnostic, EntityFact, Observation};
use crate::dto::AnalysisCompleteness;
use crate::git::text_in_utf8;
use crate::graphql::syntax::parsed_document;
use crate::ids::TextSet;
use crate::seqs::{keep, keep_step};
use crate::sorted::texts;
use crate::text::{ends_with, same};
use vstd::prelude::*;
use vstd::utf8::{decode_utf8, valid_utf8};

verus! {

/// The version of the analysis. What is stored of an earlier one is analysed again.
pub const FRONTEND_VERSION: &'static str = "9";

/// Which analyzer contributes, and in which version.
#[derive(Debug)]
pub struct AnalyzerMetadata {
    pub id: String,
    pub version: String,
}

/// A file of a repository: its path, the extension of its name, and its content.
#[derive(Debug)]
pub struct SourceInput {
    pub path: String,
    pub extension: Option<String>,
    pub content: Vec<u8>,
}

/// The files of a repository.
#[derive(Debug)]
pub struct RepositoryInputs {
    pub repository: String,
    pub inputs: Vec<SourceInput>,
}

/// A file that is no text.
#[derive(Debug)]
pub struct SourceAnalysisError {
    pub path: String,
}

/// What is contributed to a repository.
#[derive(Debug)]
pub struct RepositoryContribution {
    pub repository: String,
    pub completeness: AnalysisCompleteness,
    pub entities: Vec<EntityFact>,
    pub observations: Vec<Observation>,
    pub diagnostics: Vec<AnalysisDiagnostic>,
}

/// What is contributed to a workspace, and the repositories that have anything to analyse.
#[derive(Debug)]
pub struct AnalyzerContribution {
    pub metadata: AnalyzerMetadata,
    pub active_repositories: Vec<String>,
    pub repositories: Vec<RepositoryContribution>,
}

/// Whether files with an extension are analysed.
pub open spec fn is_accepted(extension: Option<Seq<char>>) -> bool {
    extension == Some("graphql"@) || extension == Some("gql"@)
}

/// Whether a file is analysed.
pub open spec fn accepted(input: SourceInput) -> bool {
    is_accepted(crate::domain::optional_text(input.extension))
}

/// The files that are analysed.
pub open spec fn accepted_among(inputs: Seq<SourceInput>) -> Seq<SourceInput> {
    keep(inputs, |input: SourceInput| accepted(input))
}

/// The documents in a repository.
pub open spec fn documents(inputs: Seq<SourceInput>) -> Seq<SourceModel> {
    accepted_among(inputs).map_values(
        |input: SourceInput| SourceModel { path: input.path@, source: decode_utf8(input.content@), owner: None },
    )
}

/// The first of the files to be analysed that is no text.
pub open spec fn unreadable(inputs: Seq<SourceInput>, n: int) -> Option<Seq<char>>
    decreases n,
{
    if n <= 0 {
        None
    } else {
        match unreadable(inputs, n - 1) {
            Some(path) => Some(path),
            None => if accepted(inputs[n - 1]) && !valid_utf8(inputs[n - 1].content@) {
                Some(inputs[n - 1].path@)
            } else {
                None
            },
        }
    }
}

/// The first file in the first repositories that is no text.
pub open spec fn unreadable_in(snapshot: Seq<RepositoryInputs>, n: int) -> Option<Seq<char>>
    decreases n,
{
    if n <= 0 {
        None
    } else {
        match unreadable_in(snapshot, n - 1) {
            Some(path) => Some(path),
            None => unreadable(snapshot[n - 1].inputs@, snapshot[n - 1].inputs@.len() as int),
        }
    }
}

/// Whether a repository has anything to analyse.
pub open spec fn is_active(repository: RepositoryInputs) -> bool {
    accepted_among(repository.inputs@).len() > 0
}

/// The repositories that have anything to analyse.
pub open spec fn active_among(snapshot: Seq<RepositoryInputs>) -> Seq<RepositoryInputs> {
    keep(snapshot, |repository: RepositoryInputs| is_active(repository))
}

/// Whether a repository is analysed: it has anything to analyse, and what is known of it is not up
/// to date.
pub open spec fn is_analysed(cached: Set<Seq<Seq<char>>>, repository: RepositoryInputs) -> bool {
    is_active(repository) && !cached.contains(seq![repository.repository@])
}

/// The repositories that are analysed.
pub open spec fn analysed_among(snapshot: Seq<RepositoryInputs>, cached: Set<Seq<Seq<char>>>) -> Seq<RepositoryInputs> {
    keep(snapshot, |repository: RepositoryInputs| is_analysed(cached, repository))
}

/// Whether the analysis of a document was cut short.
pub open spec fn is_recovery(diagnostic: AnalysisDiagnostic) -> bool {
    ".parse_recovery"@.is_suffix_of(diagnostic.code@)
}

/// Whether a contribution is what the documents of a repository state.
pub open spec fn is_contribution(contribution: RepositoryContribution, repository: RepositoryInputs) -> bool {
    let sources = documents(repository.inputs@);
    let facts = GraphqlFacts {
        entities: contribution.entities,
        observations: contribution.observations,
        diagnostics: contribution.diagnostics,
    };
    &&& contribution.repository@ == repository.repository@
    &&& facts.are_of(sources, sources.map_values(|source: SourceModel| parsed_document(source.source)))
    &&& contribution.completeness == (if exists|i: int|
        0 <= i < contribution.diagnostics@.len() && is_recovery(#[trigger] contribution.diagnostics@[i]) {
        AnalysisCompleteness::Incomplete
    } else {
        AnalysisCompleteness::Complete
    })
}

/// Whether 32 bits can hold every offset into the files to be analysed.
pub open spec fn all_fit(snapshot: Seq<RepositoryInputs>) -> bool {
    forall|i: int, j: int|
        0 <= i < snapshot.len() && 0 <= j < snapshot[i].inputs@.len() ==> (#[trigger] snapshot[i].inputs@[j]).content@.len()
            <= u32::MAX
}

/// Whether paths and texts are those of files.
pub open spec fn are_read(files: Seq<SourceInput>, paths: Seq<String>, sources: Seq<String>) -> bool {
    &&& paths.len() == files.len()
    &&& sources.len() == files.len()
    &&& forall|i: int|
        0 <= i < files.len() ==> paths[i]@ == files[i].path@ && sources[i]@ == decode_utf8(files[i].content@) && valid_utf8(
            (#[trigger] files[i]).content@,
        )
}

/// The GraphQL analyzer.
#[derive(Clone, Copy, Debug)]
pub struct GraphqlAnalyzer;

impl GraphqlAnalyzer {
    /// Which analyzer this is.
    pub fn metadata(&self) -> (r: AnalyzerMetadata)
        ensures
            r.id@ == "graphql"@,
            r.version@ == FRONTEND_VERSION@,
    {
        AnalyzerMetadata { id: "graphql".to_owned(), version: FRONTEND_VERSION.to_owned() }
    }

    /// Whether files with an extension are analysed.
    pub fn accepts(&self, extension: Option<&str>) -> (r: bool)
        ensures
            r == is_accepted(crate::ids::borrowed_text(extension)),
    {
        match extension {
            Some(extension) => same(extension, "graphql") || same(extension, "gql"),
            None => false,
        }
    }

    fn accepts_input(&self, input: &SourceInput) -> (r: bool)
        ensures
            r == accepted(*input),
    {
        match &input.extension {
            Some(extension) => self.accepts(Some(extension.as_str())),
            None => false,
        }
    }

    /// Reads the files to be analysed: their paths and their texts.
    fn read(&self, inputs: &Vec<SourceInput>) -> (r: Result<(Vec<String>, Vec<String>), SourceAnalysisError>)
        ensures
            r is Ok <==> unreadable(inputs@, inputs@.len() as int) is None,
            r is Err ==> r->Err_0.path@ == unreadable(inputs@, inputs@.len() as int)->0,
            r is Ok ==> {
                are_read(accepted_among(inputs@), (r->Ok_0).0@, (r->Ok_0).1@)
            },
    {
        let ghost wanted = |input: SourceInput| accepted(input);
        let mut paths: Vec<String> = Vec::new();
        let mut sources: Vec<String> = Vec::new();
        let mut i: usize = 0;
        while i < inputs.len()
            invariant
                i <= inputs@.len(),
                wanted == (|input: SourceInput| accepted(input)),
                unreadable(inputs@, i as int) is None,
                are_read(keep(inputs@.take(i as int), wanted), paths@, sources@),
            decreases inputs@.len() - i,
        {
            proof {
                keep_step(inputs@, i as int, wanted);
            }
            if self.accepts_input(&inputs[i]) {
                match text_in_utf8(&inputs[i].content) {
                    Some(source) => {
                        let ghost known = paths@;
                        let ghost decoded = sources@;
                        paths.push(inputs[i].path.clone());
                        sources.push(source);
                        proof {
                            let files = keep(inputs@.take(i as int), wanted);
                            assert forall|k: int| 0 <= k < files.len() + 1 implies paths@[k]@ == files.push(inputs@[i as int])[k].path@
                                && sources@[k]@ == decode_utf8(files.push(inputs@[i as int])[k].content@) && valid_utf8(
                                (#[trigger] files.push(inputs@[i as int])[k]).content@,
                            ) by {
                                if k < files.len() {
                                    assert(files.push(inputs@[i as int])[k] == files[k]);
                                    assert(paths@[k] == known[k] && sources@[k] == decoded[k]);
                                }
                            }
                        }
                    },
                    None => {
                        proof {
                            stays_unreadable(inputs@, i as int + 1, inputs@.len() as int);
                        }
                        return Err(SourceAnalysisError { path: inputs[i].path.clone() });
                    },
                }
            }
            i = i + 1;
        }
        assert(inputs@.take(inputs@.len() as int) =~= inputs@);
        Ok((paths, sources))
    }

    /// Analyses a workspace. Repositories that are up to date are not analysed again.
    pub fn analyze_prepared(&self, snapshot: &Vec<RepositoryInputs>, cached: &TextSet) -> (r: Result<
        AnalyzerContribution,
        SourceAnalysisError,
    >)
        requires
            cached.wf(),
            all_fit(snapshot@),
        ensures
            r is Ok <==> unreadable_in(snapshot@, snapshot@.len() as int) is None,
            r is Err ==> r->Err_0.path@ == unreadable_in(snapshot@, snapshot@.len() as int)->0,
            r is Ok ==> {
                let contribution = r->Ok_0;
                let active = active_among(snapshot@);
                let analysed = analysed_among(snapshot@, cached@.dom());
                &&& contribution.metadata.id@ == "graphql"@
                &&& contribution.metadata.version@ == FRONTEND_VERSION@
                &&& texts(contribution.active_repositories@) == active.map_values(
                    |repository: RepositoryInputs| repository.repository@,
                )
                &&& contribution.repositories@.len() == analysed.len()
                &&& forall|i: int|
                    0 <= i < analysed.len() ==> is_contribution(#[trigger] contribution.repositories@[i], analysed[i])
            },
    {
        let ghost known = cached@.dom();
        let ghost active = |repository: RepositoryInputs| is_active(repository);
        let ghost analysed = |repository: RepositoryInputs| is_analysed(known, repository);
        let ghost named = |repository: RepositoryInputs| repository.repository@;
        let mut active_repositories: Vec<String> = Vec::new();
        let mut repositories: Vec<RepositoryContribution> = Vec::new();
        let mut i: usize = 0;
        assert(texts(active_repositories@) =~= keep(snapshot@.take(0), active).map_values(named));
        while i < snapshot.len()
            invariant
                i <= snapshot@.len(),
                cached.wf(),
                known == cached@.dom(),
                all_fit(snapshot@),
                active == (|repository: RepositoryInputs| is_active(repository)),
                analysed == (|repository: RepositoryInputs| is_analysed(known, repository)),
                named == (|repository: RepositoryInputs| repository.repository@),
                unreadable_in(snapshot@, i as int) is None,
                texts(active_repositories@) == keep(snapshot@.take(i as int), active).map_values(named),
                repositories@.len() == keep(snapshot@.take(i as int), analysed).len(),
                forall|k: int|
                    0 <= k < repositories@.len() ==> is_contribution(
                        #[trigger] repositories@[k],
                        keep(snapshot@.take(i as int), analysed)[k],
                    ),
            decreases snapshot@.len() - i,
        {
            let repository: &RepositoryInputs = &snapshot[i];
            proof {
                keep_step(snapshot@, i as int, active);
                keep_step(snapshot@, i as int, analysed);
            }
            let ghost so_far = keep(snapshot@.take(i as int), active);
            let (paths, sources): (Vec<String>, Vec<String>) = match self.read(&repository.inputs) {
                Ok(read) => read,
                Err(error) => {
                    proof {
                        stays_unreadable_in(snapshot@, i as int + 1, snapshot@.len() as int);
                    }
                    return Err(error);
                },
            };
            if paths.len() > 0 {
                let ghost before = active_repositories@;
                active_repositories.push(repository.repository.clone());
                proof {
                    assert(texts(active_repositories@) =~= texts(before).push(repository.repository@));
                    assert(so_far.push(*repository).map_values(named) =~= so_far.map_values(named).push(repository.repository@));
                }
                if !cached.contains_key(&repository.repository) {
                    proof {
                        accepted_fit(repository.inputs@, snapshot@, i as int);
                    }
                    repositories.push(self.analyse(repository, &paths, &sources));
                }
            }
            i = i + 1;
        }
        assert(snapshot@.take(snapshot@.len() as int) =~= snapshot@);
        Ok(AnalyzerContribution { metadata: self.metadata(), active_repositories, repositories })
    }

    fn analyse(&self, repository: &RepositoryInputs, paths: &Vec<String>, sources: &Vec<String>) -> (r: RepositoryContribution)
        requires
            are_read(accepted_among(repository.inputs@), paths@, sources@),
            forall|i: int|
                0 <= i < accepted_among(repository.inputs@).len() ==> (#[trigger] accepted_among(
                    repository.inputs@,
                )[i]).content@.len() <= u32::MAX,
        ensures
            is_contribution(r, *repository),
    {
        let ghost wanted = documents(repository.inputs@);
        let mut list: Vec<GraphqlSource<'_>> = Vec::new();
        let mut i: usize = 0;
        while i < paths.len()
            invariant
                i <= paths@.len(),
                are_read(accepted_among(repository.inputs@), paths@, sources@),
                wanted == documents(repository.inputs@),
                wanted.len() == paths@.len(),
                forall|i: int|
                    0 <= i < accepted_among(repository.inputs@).len() ==> (#[trigger] accepted_among(
                        repository.inputs@,
                    )[i]).content@.len() <= u32::MAX,
                list@.len() == i,
                forall|k: int| 0 <= k < i ==> (#[trigger] list@[k])@ == wanted[k] && list@[k].fits(),
            decreases paths@.len() - i,
        {
            let source: GraphqlSource<'_> = GraphqlSource { path: paths[i].as_str(), source: sources[i].as_str(), owner: None };
            proof {
                let file = accepted_among(repository.inputs@)[i as int];
                assert(valid_utf8(file.content@));
                vstd::utf8::decode_utf8_encode_utf8(file.content@);
                assert(source@ == wanted[i as int]);
            }
            list.push(source);
            i = i + 1;
        }
        proof {
            assert(source_models(list@) =~= wanted);
        }
        let analysis: GraphqlFacts = super::facts(repository.repository.as_str(), list.as_slice());
        let ghost parsed = wanted.map_values(|source: SourceModel| parsed_document(source.source));
        assert(analysis.are_of(wanted, parsed)) by {
            assert(source_models(list@).map_values(|s: SourceModel| parsed_document(s.source)) =~= parsed);
        }
        let mut incomplete: bool = false;
        let mut j: usize = 0;
        while j < analysis.diagnostics.len()
            invariant
                j <= analysis.diagnostics@.len(),
                incomplete <==> exists|k: int| 0 <= k < j && is_recovery(#[trigger] analysis.diagnostics@[k]),
            decreases analysis.diagnostics@.len() - j,
        {
            if ends_with(analysis.diagnostics[j].code.as_str(), ".parse_recovery") {
                assert(is_recovery(analysis.diagnostics@[j as int]));
                incomplete = true;
            }
            j = j + 1;
        }
        let completeness: AnalysisCompleteness = if incomplete {
            AnalysisCompleteness::Incomplete
        } else {
            AnalysisCompleteness::Complete
        };
        let contribution: RepositoryContribution = RepositoryContribution {
            repository: repository.repository.clone(),
            completeness,
            entities: analysis.entities,
            observations: analysis.observations,
            diagnostics: analysis.diagnostics,
        };
        proof {
            let facts = GraphqlFacts {
                entities: contribution.entities,
                observations: contribution.observations,
                diagnostics: contribution.diagnostics,
            };
            assert(facts == analysis);
        }
        contribution
    }
}

proof fn stays_unreadable(inputs: Seq<SourceInput>, k: int, n: int)
    requires
        0 <= k <= n,
        unreadable(inputs, k) is Some,
    ensures
        unreadable(inputs, n) == unreadable(inputs, k),
    decreases n - k,
{
    if k < n {
        stays_unreadable(inputs, k + 1, n);
    }
}

proof fn stays_unreadable_in(snapshot: Seq<RepositoryInputs>, k: int, n: int)
    requires
        0 <= k <= n,
        unreadable_in(snapshot, k) is Some,
    ensures
        unreadable_in(snapshot, n) == unreadable_in(snapshot, k),
    decreases n - k,
{
    if k < n {
        stays_unreadable_in(snapshot, k + 1, n);
    }
}

proof fn kept_from<A>(list: Seq<A>, wanted: spec_fn(A) -> bool, i: int)
    requires
        0 <= i < keep(list, wanted).len(),
    ensures
        exists|j: int| 0 <= j < list.len() && #[trigger] list[j] == keep(list, wanted)[i],
    decreases list.len(),
{
    if list.len() > 0 {
        let shorter = keep(list.drop_last(), wanted);
        if i < shorter.len() {
            kept_from(list.drop_last(), wanted, i);
            let j = choose|j: int| 0 <= j < list.drop_last().len() && #[trigger] list.drop_last()[j] == shorter[i];
            assert(list[j] == keep(list, wanted)[i]);
        } else {
            assert(list[list.len() - 1] == keep(list, wanted)[i]);
        }
    }
}

proof fn accepted_fit(inputs: Seq<SourceInput>, snapshot: Seq<RepositoryInputs>, at: int)
    requires
        0 <= at < snapshot.len(),
        inputs == snapshot[at].inputs@,
        all_fit(snapshot),
    ensures
        forall|i: int| 0 <= i < accepted_among(inputs).len() ==> (#[trigger] accepted_among(inputs)[i]).content@.len() <= u32::MAX,
{
    let wanted = |input: SourceInput| accepted(input);
    assert forall|i: int| 0 <= i < accepted_among(inputs).len() implies (#[trigger] accepted_among(inputs)[i]).content@.len()
        <= u32::MAX by {
        kept_from(inputs, wanted, i);
        let j = choose|j: int| 0 <= j < inputs.len() && #[trigger] inputs[j] == keep(inputs, wanted)[i];
        assert(snapshot[at].inputs@[j].content@.len() <= u32::MAX);
    }
}

} // verus!
