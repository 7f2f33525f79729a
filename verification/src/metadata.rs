//! Queries on revisions, and what is known of their analysis.

use crate::command::{bind_integer, bind_text, bindings, ArgumentModel, Binding, CellModel, Command, CommandModel};
use crate::domain::{optional_text, parse_severity, severity_of, AnalysisDiagnosticSeverity};
use crate::dto::{AnalysisCompleteness, AnalysisDiagnostic, AnalysisMetadata, DiagnosticCounts, RepositoryDiagnosticModel, RepositoryRevision};
use crate::query::{MnesticQuery, QueryError};
use crate::rows::{cell_integer, cell_text, cell_text_or_empty, integer, text_or_empty, InspectionValue, Row};
use crate::scripts::{
    Rules, ANALYSIS_REVISION, COMPLETENESS, DIAGNOSTICS, DIAGNOSTIC_COUNTS, PUBLISHED_HEAD, REPOSITORY_DIAGNOSTICS, REPOSITORY_REVISION,
};
use crate::seqs::reversed;
use crate::sorted::texts;
use vstd::prelude::*;

verus! {

/// What is said of an integer that does not fit.
pub const OUT_OF_RANGE: &'static str = "out of range integral type conversion attempted";

/// The text in a column, borrowed.
fn borrowed(row: &Vec<InspectionValue>, column: usize) -> (r: Option<&str>)
    ensures
        crate::ids::borrowed_text(r) == cell_text(row@, column as int),
{
    if column < row.len() {
        row[column].as_str()
    } else {
        None
    }
}

fn one_header(name: &str) -> (r: Vec<String>)
    ensures
        texts(r@) == seq![name@],
{
    let mut list: Vec<String> = Vec::new();
    list.push(name.to_owned());
    assert(texts(list@) =~= seq![name@]);
    list
}

/// The query for the revision of a view.
pub struct AnalysisRevisionQuery;

/// The integer in a column, or zero where there is none.
pub open spec fn integer_or_zero(row: Row, column: int) -> int {
    match cell_integer(row, column) {
        Some(value) => value,
        None => 0,
    }
}

impl MnesticQuery for AnalysisRevisionQuery {
    type Row = i64;

    type Model = int;

    open spec fn model(row: i64) -> int {
        row as int
    }

    open spec fn operation_text() -> Seq<char> {
        "analysis_revision"@
    }

    open spec fn header_texts() -> Seq<Seq<char>> {
        seq!["revision"@]
    }

    open spec fn decoded(row: Row) -> Result<int, Seq<char>> {
        Ok(integer_or_zero(row, 0))
    }

    fn operation() -> (r: &'static str) {
        "analysis_revision"
    }

    fn headers() -> (r: Vec<String>) {
        one_header("revision")
    }

    fn decode(row: Vec<InspectionValue>) -> (r: Result<i64, QueryError>) {
        match integer(&row, 0) {
            Some(value) => Ok(value),
            None => Ok(0),
        }
    }
}

/// Asks for the revision of a view.
pub fn ask_revision(view: &str) -> (r: Command)
    ensures
        r@ == (CommandModel {
            script: ANALYSIS_REVISION@,
            arguments: seq![("view"@, ArgumentModel::One(CellModel::Text(view@)))],
        }),
{
    let mut arguments: Vec<Binding> = Vec::new();
    arguments.push(bind_text("view", view));
    assert(bindings(arguments@) =~= seq![("view"@, ArgumentModel::One(CellModel::Text(view@)))]);
    Command { script: ANALYSIS_REVISION.to_owned(), arguments }
}

/// The revision that the rows of a view state: the first, or zero where there is none.
pub fn analysis_revision(rows: &Vec<i64>) -> (r: Result<u64, String>)
    ensures
        r is Ok <==> (rows@.len() == 0 || rows@[0] >= 0),
        r is Ok ==> r->Ok_0 == (if rows@.len() == 0 {
            0
        } else {
            rows@[0] as int
        }),
        r is Err ==> r->Err_0@ == OUT_OF_RANGE@,
{
    if rows.len() == 0 {
        return Ok(0);
    }
    if rows[0] < 0 {
        return Err(OUT_OF_RANGE.to_owned());
    }
    Ok(rows[0] as u64)
}

/// The query for whether the analysis of a revision is incomplete.
pub struct AnalysisMetadataCompleteness;

impl MnesticQuery for AnalysisMetadataCompleteness {
    type Row = bool;

    type Model = bool;

    open spec fn model(row: bool) -> bool {
        row
    }

    open spec fn operation_text() -> Seq<char> {
        "analysis_metadata.completeness"@
    }

    open spec fn header_texts() -> Seq<Seq<char>> {
        seq!["incomplete"@]
    }

    open spec fn decoded(row: Row) -> Result<bool, Seq<char>> {
        Ok(row[0] == InspectionValue::Boolean(true))
    }

    fn operation() -> (r: &'static str) {
        "analysis_metadata.completeness"
    }

    fn headers() -> (r: Vec<String>) {
        one_header("incomplete")
    }

    fn decode(row: Vec<InspectionValue>) -> (r: Result<bool, QueryError>) {
        match &row[0] {
            InspectionValue::Boolean(value) => Ok(*value),
            _ => Ok(false),
        }
    }
}

/// What is bound for a query on a revision.
pub open spec fn revision_bound(view: Seq<char>, revision: int) -> Seq<(Seq<char>, ArgumentModel)> {
    seq![("view"@, ArgumentModel::One(CellModel::Text(view))), ("revision"@, ArgumentModel::One(CellModel::Integer(revision)))]
}

fn bind_revision(view: &str, revision: i64) -> (r: Vec<Binding>)
    ensures
        bindings(r@) == revision_bound(view@, revision as int),
{
    let mut arguments: Vec<Binding> = Vec::new();
    arguments.push(bind_text("view", view));
    arguments.push(bind_integer("revision", revision));
    assert(bindings(arguments@) =~= revision_bound(view@, revision as int));
    arguments
}

/// Asks whether the analysis of a revision is incomplete.
pub fn ask_completeness(view: &str, revision: i64) -> (r: Command)
    ensures
        r@ == (CommandModel { script: COMPLETENESS@, arguments: revision_bound(view@, revision as int) }),
{
    Command { script: COMPLETENESS.to_owned(), arguments: bind_revision(view, revision) }
}

/// Asks for the diagnostics of a revision.
pub fn ask_diagnostics(rules: &Rules, view: &str, revision: i64) -> (r: Command)
    ensures
        r@ == (CommandModel { script: rules.analysis_metadata@ + DIAGNOSTICS@, arguments: revision_bound(view@, revision as int) }),
{
    let mut script: String = rules.analysis_metadata.clone();
    script.append(DIAGNOSTICS);
    Command { script, arguments: bind_revision(view, revision) }
}

/// Asks for the number of diagnostics of each severity of a revision.
pub fn ask_diagnostic_counts(rules: &Rules, view: &str, revision: i64) -> (r: Command)
    ensures
        r@ == (CommandModel { script: rules.analysis_metadata@ + DIAGNOSTIC_COUNTS@, arguments: revision_bound(view@, revision as int) }),
{
    let mut script: String = rules.analysis_metadata.clone();
    script.append(DIAGNOSTIC_COUNTS);
    Command { script, arguments: bind_revision(view, revision) }
}

/// The line that an integer stands for: none where it is zero.
pub open spec fn line_of(value: int) -> Option<u32> {
    if value == 0 {
        None
    } else {
        Some(value as u32)
    }
}

/// The text, unless it is empty.
pub open spec fn unless_empty(text: Seq<char>) -> Option<Seq<char>> {
    if text.len() == 0 {
        None
    } else {
        Some(text)
    }
}

/// The text, unless it is empty.
pub fn nonempty(text: String) -> (r: Option<String>)
    ensures
        optional_text(r) == unless_empty(text@),
{
    if text.as_str().unicode_len() == 0 {
        None
    } else {
        Some(text)
    }
}

/// The diagnostic that columns from `at` on state for a repository: code, severity, path, line
/// and detail.
pub open spec fn decoded_diagnostic(row: Row, at: int, repository: Seq<char>, unknown: Seq<char>) -> Result<RepositoryDiagnosticModel, Seq<char>> {
    match severity_of(cell_text(row, at + 1)) {
        None => Err(unknown),
        Some(severity) => {
            let line = integer_or_zero(row, at + 3);
            if line < 0 || line > u32::MAX {
                Err(OUT_OF_RANGE@)
            } else {
                Ok(
                    RepositoryDiagnosticModel {
                        repository,
                        code: cell_text_or_empty(row, at),
                        severity,
                        path: cell_text_or_empty(row, at + 2),
                        line: line_of(line),
                        detail: unless_empty(cell_text_or_empty(row, at + 4)),
                    },
                )
            }
        },
    }
}

fn decode_diagnostic(row: &Vec<InspectionValue>, at: usize, repository: String, operation: &'static str, unknown: &str) -> (r: Result<
    AnalysisDiagnostic,
    QueryError,
>)
    requires
        at + 4 < row@.len(),
    ensures
        r is Ok <==> decoded_diagnostic(row@, at as int, repository@, unknown@) is Ok,
        r is Ok ==> r->Ok_0@ == decoded_diagnostic(row@, at as int, repository@, unknown@)->Ok_0,
        r is Err ==> r->Err_0.operation@ == operation@,
        r is Err ==> r->Err_0.detail@ == decoded_diagnostic(row@, at as int, repository@, unknown@)->Err_0,
{
    let n: usize = row.len();
    let severity: AnalysisDiagnosticSeverity = match parse_severity(borrowed(row, at + 1)) {
        Some(severity) => severity,
        None => {
            return Err(QueryError::new(operation, unknown.to_owned()));
        },
    };
    let line: i64 = match integer(row, at + 3) {
        Some(value) => value,
        None => 0,
    };
    if line < 0 || line > u32::MAX as i64 {
        return Err(QueryError::new(operation, OUT_OF_RANGE.to_owned()));
    }
    Ok(
        AnalysisDiagnostic {
            repository,
            code: text_or_empty(row, at),
            severity,
            path: text_or_empty(row, at + 2),
            line: if line == 0 {
                None
            } else {
                Some(line as u32)
            },
            detail: nonempty(text_or_empty(row, at + 4)),
        },
    )
}

/// The query for the diagnostics of a revision.
pub struct AnalysisMetadataDiagnostics;

impl MnesticQuery for AnalysisMetadataDiagnostics {
    type Row = AnalysisDiagnostic;

    type Model = RepositoryDiagnosticModel;

    open spec fn model(row: AnalysisDiagnostic) -> RepositoryDiagnosticModel {
        row@
    }

    open spec fn operation_text() -> Seq<char> {
        "analysis_metadata.diagnostics"@
    }

    open spec fn header_texts() -> Seq<Seq<char>> {
        seq!["repository"@, "code"@, "severity"@, "path"@, "line"@, "detail"@]
    }

    open spec fn decoded(row: Row) -> Result<RepositoryDiagnosticModel, Seq<char>> {
        decoded_diagnostic(row, 1, cell_text_or_empty(row, 0), "unknown stored analysis diagnostic severity"@)
    }

    fn operation() -> (r: &'static str) {
        "analysis_metadata.diagnostics"
    }

    fn headers() -> (r: Vec<String>) {
        let mut list: Vec<String> = Vec::new();
        list.push("repository".to_owned());
        list.push("code".to_owned());
        list.push("severity".to_owned());
        list.push("path".to_owned());
        list.push("line".to_owned());
        list.push("detail".to_owned());
        assert(texts(list@) =~= Self::header_texts());
        list
    }

    fn decode(row: Vec<InspectionValue>) -> (r: Result<AnalysisDiagnostic, QueryError>) {
        let repository: String = text_or_empty(&row, 0);
        decode_diagnostic(&row, 1, repository, Self::operation(), "unknown stored analysis diagnostic severity")
    }
}

/// The query for the number of diagnostics of each severity.
pub struct AnalysisMetadataDiagnosticCounts;

impl MnesticQuery for AnalysisMetadataDiagnosticCounts {
    type Row = (AnalysisDiagnosticSeverity, u64);

    type Model = (AnalysisDiagnosticSeverity, int);

    open spec fn model(row: (AnalysisDiagnosticSeverity, u64)) -> (AnalysisDiagnosticSeverity, int) {
        (row.0, row.1 as int)
    }

    open spec fn operation_text() -> Seq<char> {
        "analysis_metadata.diagnostic_counts"@
    }

    open spec fn header_texts() -> Seq<Seq<char>> {
        seq!["severity"@, "count(code)"@]
    }

    open spec fn decoded(row: Row) -> Result<(AnalysisDiagnosticSeverity, int), Seq<char>> {
        match severity_of(cell_text(row, 0)) {
            None => Err("unknown stored analysis diagnostic severity"@),
            Some(severity) => match cell_integer(row, 1) {
                Some(count) => if count >= 0 {
                    Ok((severity, count))
                } else {
                    Err("diagnostic count is invalid"@)
                },
                None => Err("diagnostic count is invalid"@),
            },
        }
    }

    fn operation() -> (r: &'static str) {
        "analysis_metadata.diagnostic_counts"
    }

    fn headers() -> (r: Vec<String>) {
        let mut list: Vec<String> = Vec::new();
        list.push("severity".to_owned());
        list.push("count(code)".to_owned());
        assert(texts(list@) =~= Self::header_texts());
        list
    }

    fn decode(row: Vec<InspectionValue>) -> (r: Result<(AnalysisDiagnosticSeverity, u64), QueryError>) {
        let severity: AnalysisDiagnosticSeverity = match parse_severity(borrowed(&row, 0)) {
            Some(severity) => severity,
            None => {
                return Err(QueryError::new(Self::operation(), "unknown stored analysis diagnostic severity".to_owned()));
            },
        };
        match integer(&row, 1) {
            Some(count) => if count >= 0 {
                Ok((severity, count as u64))
            } else {
                Err(QueryError::new(Self::operation(), "diagnostic count is invalid".to_owned()))
            },
            None => Err(QueryError::new(Self::operation(), "diagnostic count is invalid".to_owned())),
        }
    }
}

/// How complete an analysis is, by what the first row says of it.
pub open spec fn completeness_of(incomplete: Seq<bool>) -> AnalysisCompleteness {
    if incomplete.len() > 0 && incomplete[0] {
        AnalysisCompleteness::Incomplete
    } else {
        AnalysisCompleteness::Complete
    }
}

fn completeness(incomplete: &Vec<bool>) -> (r: AnalysisCompleteness)
    ensures
        r == completeness_of(incomplete@),
{
    if incomplete.len() > 0 && incomplete[0] {
        AnalysisCompleteness::Incomplete
    } else {
        AnalysisCompleteness::Complete
    }
}

/// How many of the first `n` diagnostics have a severity.
pub open spec fn count_of(diagnostics: Seq<AnalysisDiagnostic>, severity: AnalysisDiagnosticSeverity, n: int) -> nat
    decreases n,
{
    if n <= 0 {
        0
    } else {
        count_of(diagnostics, severity, n - 1) + if diagnostics[n - 1].severity == severity {
            1nat
        } else {
            0nat
        }
    }
}

/// Counts diagnostics.
pub fn diagnostic_counts(diagnostics: &Vec<AnalysisDiagnostic>) -> (r: DiagnosticCounts)
    ensures
        r.total == diagnostics@.len(),
        r.known_limitations == count_of(diagnostics@, AnalysisDiagnosticSeverity::KnownLimitation, diagnostics@.len() as int),
        r.warnings == count_of(diagnostics@, AnalysisDiagnosticSeverity::Warning, diagnostics@.len() as int),
        r.known_limitations + r.warnings == r.total,
{
    let mut counts: DiagnosticCounts = DiagnosticCounts { total: diagnostics.len() as u64, known_limitations: 0, warnings: 0 };
    let mut i: usize = 0;
    while i < diagnostics.len()
        invariant
            i <= diagnostics@.len(),
            counts.total == diagnostics@.len(),
            counts.known_limitations == count_of(diagnostics@, AnalysisDiagnosticSeverity::KnownLimitation, i as int),
            counts.warnings == count_of(diagnostics@, AnalysisDiagnosticSeverity::Warning, i as int),
            counts.known_limitations + counts.warnings == i,
        decreases diagnostics@.len() - i,
    {
        match diagnostics[i].severity {
            AnalysisDiagnosticSeverity::KnownLimitation => {
                counts.known_limitations = counts.known_limitations + 1;
            },
            AnalysisDiagnosticSeverity::Warning => {
                counts.warnings = counts.warnings + 1;
            },
        }
        i = i + 1;
    }
    counts
}

/// What is known of an analysis by its diagnostics.
pub fn analysis_metadata(incomplete: &Vec<bool>, diagnostics: Vec<AnalysisDiagnostic>) -> (r: AnalysisMetadata)
    ensures
        r.completeness == completeness_of(incomplete@),
        r.diagnostics@ == diagnostics@,
        r.diagnostic_counts.total == diagnostics@.len(),
        r.diagnostic_counts.known_limitations == count_of(
            diagnostics@,
            AnalysisDiagnosticSeverity::KnownLimitation,
            diagnostics@.len() as int,
        ),
        r.diagnostic_counts.warnings == count_of(diagnostics@, AnalysisDiagnosticSeverity::Warning, diagnostics@.len() as int),
{
    let counts: DiagnosticCounts = diagnostic_counts(&diagnostics);
    AnalysisMetadata { completeness: completeness(incomplete), diagnostic_counts: counts, diagnostics }
}

/// The sum of the first `n` counts.
pub open spec fn sum_of(counts: Seq<(AnalysisDiagnosticSeverity, u64)>, n: int) -> nat
    decreases n,
{
    if n <= 0 {
        0
    } else {
        sum_of(counts, n - 1) + counts[n - 1].1 as nat
    }
}

/// The last of the first `n` counts that is for a severity, or zero.
pub open spec fn last_count(counts: Seq<(AnalysisDiagnosticSeverity, u64)>, severity: AnalysisDiagnosticSeverity, n: int) -> u64
    decreases n,
{
    if n <= 0 {
        0
    } else if counts[n - 1].0 == severity {
        counts[n - 1].1
    } else {
        last_count(counts, severity, n - 1)
    }
}

proof fn sum_grows(counts: Seq<(AnalysisDiagnosticSeverity, u64)>, k: int, n: int)
    requires
        k <= n,
    ensures
        sum_of(counts, k) <= sum_of(counts, n),
    decreases n - k,
{
    if k < n {
        sum_grows(counts, k, n - 1);
    }
}

/// What is known of an analysis by the numbers of its diagnostics, without their details.
pub fn summary_metadata(incomplete: &Vec<bool>, rows: &Vec<(AnalysisDiagnosticSeverity, u64)>) -> (r: AnalysisMetadata)
    requires
        sum_of(rows@, rows@.len() as int) <= u64::MAX,
    ensures
        r.completeness == completeness_of(incomplete@),
        r.diagnostics@.len() == 0,
        r.diagnostic_counts.total == sum_of(rows@, rows@.len() as int),
        r.diagnostic_counts.known_limitations == last_count(rows@, AnalysisDiagnosticSeverity::KnownLimitation, rows@.len() as int),
        r.diagnostic_counts.warnings == last_count(rows@, AnalysisDiagnosticSeverity::Warning, rows@.len() as int),
{
    let mut counts: DiagnosticCounts = DiagnosticCounts { total: 0, known_limitations: 0, warnings: 0 };
    let mut i: usize = 0;
    while i < rows.len()
        invariant
            i <= rows@.len(),
            sum_of(rows@, rows@.len() as int) <= u64::MAX,
            counts.total == sum_of(rows@, i as int),
            counts.known_limitations == last_count(rows@, AnalysisDiagnosticSeverity::KnownLimitation, i as int),
            counts.warnings == last_count(rows@, AnalysisDiagnosticSeverity::Warning, i as int),
        decreases rows@.len() - i,
    {
        proof {
            sum_grows(rows@, i as int + 1, rows@.len() as int);
        }
        counts.total = counts.total + rows[i].1;
        match rows[i].0 {
            AnalysisDiagnosticSeverity::KnownLimitation => {
                counts.known_limitations = rows[i].1;
            },
            AnalysisDiagnosticSeverity::Warning => {
                counts.warnings = rows[i].1;
            },
        }
        i = i + 1;
    }
    AnalysisMetadata { completeness: completeness(incomplete), diagnostic_counts: counts, diagnostics: Vec::new() }
}

/// What is stored of the revision of a repository by itself.
#[derive(Debug)]
pub struct RevisionRow {
    pub source_state: String,
    pub analysis_identity: String,
    pub head: String,
    pub incomplete: bool,
}

/// What is stored of the revision of a repository by itself.
pub ghost struct RevisionModel {
    pub source_state: Seq<char>,
    pub analysis_identity: Seq<char>,
    pub head: Seq<char>,
    pub incomplete: bool,
}

/// The query for the revision of a repository by itself. Runs of it are limited to five
/// seconds.
pub struct RepositoryRevisionQuery;

impl MnesticQuery for RepositoryRevisionQuery {
    type Row = RevisionRow;

    type Model = RevisionModel;

    open spec fn model(row: RevisionRow) -> RevisionModel {
        RevisionModel {
            source_state: row.source_state@,
            analysis_identity: row.analysis_identity@,
            head: row.head@,
            incomplete: row.incomplete,
        }
    }

    open spec fn operation_text() -> Seq<char> {
        "repository_revision"@
    }

    open spec fn header_texts() -> Seq<Seq<char>> {
        seq!["source_state"@, "analysis_identity"@, "head"@, "incomplete"@]
    }

    open spec fn decoded(row: Row) -> Result<RevisionModel, Seq<char>> {
        if cell_text(row, 0) is None {
            Err("stored repository source state is not a string"@)
        } else if cell_text(row, 1) is None {
            Err("stored repository analysis identity is not a string"@)
        } else if cell_text(row, 2) is None {
            Err("stored repository head is not a string"@)
        } else {
            match row[3] {
                InspectionValue::Boolean(incomplete) => Ok(
                    RevisionModel {
                        source_state: cell_text(row, 0)->0,
                        analysis_identity: cell_text(row, 1)->0,
                        head: cell_text(row, 2)->0,
                        incomplete,
                    },
                ),
                _ => Err("stored repository completeness is not a boolean"@),
            }
        }
    }

    fn operation() -> (r: &'static str) {
        "repository_revision"
    }

    fn headers() -> (r: Vec<String>) {
        let mut list: Vec<String> = Vec::new();
        list.push("source_state".to_owned());
        list.push("analysis_identity".to_owned());
        list.push("head".to_owned());
        list.push("incomplete".to_owned());
        assert(texts(list@) =~= Self::header_texts());
        list
    }

    fn decode(row: Vec<InspectionValue>) -> (r: Result<RevisionRow, QueryError>) {
        let source_state: String = match borrowed(&row, 0) {
            Some(value) => value.to_owned(),
            None => {
                return Err(QueryError::new(Self::operation(), "stored repository source state is not a string".to_owned()));
            },
        };
        let analysis_identity: String = match borrowed(&row, 1) {
            Some(value) => value.to_owned(),
            None => {
                return Err(QueryError::new(Self::operation(), "stored repository analysis identity is not a string".to_owned()));
            },
        };
        let head: String = match borrowed(&row, 2) {
            Some(value) => value.to_owned(),
            None => {
                return Err(QueryError::new(Self::operation(), "stored repository head is not a string".to_owned()));
            },
        };
        match &row[3] {
            InspectionValue::Boolean(incomplete) => Ok(
                RevisionRow { source_state, analysis_identity, head, incomplete: *incomplete },
            ),
            _ => Err(QueryError::new(Self::operation(), "stored repository completeness is not a boolean".to_owned())),
        }
    }
}

/// What is bound for a query on a repository by itself.
pub open spec fn repository_bound(view: Seq<char>, repository: Seq<char>) -> Seq<(Seq<char>, ArgumentModel)> {
    seq![
        ("view"@, ArgumentModel::One(CellModel::Text(view))),
        ("repository"@, ArgumentModel::One(CellModel::Text(repository))),
    ]
}

fn bind_repository(view: &str, repository: &str) -> (r: Vec<Binding>)
    ensures
        bindings(r@) == repository_bound(view@, repository@),
{
    let mut arguments: Vec<Binding> = Vec::new();
    arguments.push(bind_text("view", view));
    arguments.push(bind_text("repository", repository));
    assert(bindings(arguments@) =~= repository_bound(view@, repository@));
    arguments
}

/// Asks for the revision of a repository by itself.
pub fn ask_repository_revision(repository: &str) -> (r: Command)
    ensures
        r@ == (CommandModel { script: REPOSITORY_REVISION@, arguments: repository_bound(repository@, repository@) }),
{
    Command { script: REPOSITORY_REVISION.to_owned(), arguments: bind_repository(repository, repository) }
}

/// Asks for the diagnostics of a repository by itself.
pub fn ask_repository_diagnostics(repository: &str) -> (r: Command)
    ensures
        r@ == (CommandModel { script: REPOSITORY_DIAGNOSTICS@, arguments: repository_bound(repository@, repository@) }),
{
    Command { script: REPOSITORY_DIAGNOSTICS.to_owned(), arguments: bind_repository(repository, repository) }
}

/// Asks for the head of a repository in the published revision of a view.
pub fn ask_published_head(view: &str, repository: &str) -> (r: Command)
    ensures
        r@ == (CommandModel { script: PUBLISHED_HEAD@, arguments: repository_bound(view@, repository@) }),
{
    Command { script: PUBLISHED_HEAD.to_owned(), arguments: bind_repository(view, repository) }
}

/// The query for the diagnostics of a repository by itself; the rows do not name it.
pub struct RepositoryDiagnosticsQuery;

impl MnesticQuery for RepositoryDiagnosticsQuery {
    type Row = AnalysisDiagnostic;

    type Model = RepositoryDiagnosticModel;

    open spec fn model(row: AnalysisDiagnostic) -> RepositoryDiagnosticModel {
        row@
    }

    open spec fn operation_text() -> Seq<char> {
        "repository_revision.diagnostics"@
    }

    open spec fn header_texts() -> Seq<Seq<char>> {
        seq!["code"@, "severity"@, "path"@, "line"@, "detail"@]
    }

    open spec fn decoded(row: Row) -> Result<RepositoryDiagnosticModel, Seq<char>> {
        decoded_diagnostic(row, 0, Seq::empty(), "unknown stored repository diagnostic severity"@)
    }

    fn operation() -> (r: &'static str) {
        "repository_revision.diagnostics"
    }

    fn headers() -> (r: Vec<String>) {
        let mut list: Vec<String> = Vec::new();
        list.push("code".to_owned());
        list.push("severity".to_owned());
        list.push("path".to_owned());
        list.push("line".to_owned());
        list.push("detail".to_owned());
        assert(texts(list@) =~= Self::header_texts());
        list
    }

    fn decode(row: Vec<InspectionValue>) -> (r: Result<AnalysisDiagnostic, QueryError>) {
        decode_diagnostic(&row, 0, String::new(), Self::operation(), "unknown stored repository diagnostic severity")
    }
}

/// Diagnostics with the repository that they are about.
pub open spec fn about(repository: Seq<char>, diagnostics: Seq<AnalysisDiagnostic>) -> Seq<RepositoryDiagnosticModel> {
    diagnostics.map_values(|diagnostic: AnalysisDiagnostic| RepositoryDiagnosticModel { repository, ..diagnostic@ })
}

/// The content of diagnostics.
pub open spec fn diagnostic_models(diagnostics: Seq<AnalysisDiagnostic>) -> Seq<RepositoryDiagnosticModel> {
    diagnostics.map_values(|diagnostic: AnalysisDiagnostic| diagnostic@)
}

fn attribute(repository: &str, diagnostics: Vec<AnalysisDiagnostic>) -> (r: Vec<AnalysisDiagnostic>)
    ensures
        diagnostic_models(r@) == about(repository@, diagnostics@),
{
    let ghost all = diagnostics@;
    let mut rest: Vec<AnalysisDiagnostic> = reversed(diagnostics);
    let mut named: Vec<AnalysisDiagnostic> = Vec::new();
    while rest.len() > 0
        invariant
            all.len() == rest@.len() + named@.len(),
            forall|j: int| 0 <= j < rest@.len() ==> #[trigger] rest@[j] == all[all.len() - 1 - j],
            forall|j: int|
                0 <= j < named@.len() ==> (#[trigger] named@[j])@ == (RepositoryDiagnosticModel { repository: repository@, ..all[j]@ }),
        decreases rest@.len(),
    {
        match rest.pop() {
            Some(diagnostic) => {
                assert(diagnostic == all[named@.len() as int]);
                named.push(
                    AnalysisDiagnostic {
                        repository: repository.to_owned(),
                        code: diagnostic.code,
                        severity: diagnostic.severity,
                        path: diagnostic.path,
                        line: diagnostic.line,
                        detail: diagnostic.detail,
                    },
                );
            },
            None => {},
        }
    }
    assert(diagnostic_models(named@) =~= about(repository@, all));
    named
}

/// What is known of the analysis of a repository by itself: nothing where no revision is
/// stored, and else what the first row says.
pub fn repository_revision(repository: &str, revisions: Vec<RevisionRow>, diagnostics: Vec<AnalysisDiagnostic>) -> (r: Option<RepositoryRevision>)
    ensures
        r is Some <==> revisions@.len() > 0,
        r is Some ==> {
            let found = r->0;
            &&& found.source_state@ == revisions@[0].source_state@
            &&& found.analysis_identity@ == revisions@[0].analysis_identity@
            &&& optional_text(found.head) == unless_empty(revisions@[0].head@)
            &&& found.analysis.completeness == completeness_of(seq![revisions@[0].incomplete])
            &&& diagnostic_models(found.analysis.diagnostics@) == about(repository@, diagnostics@)
            &&& found.analysis.diagnostic_counts.total == diagnostics@.len()
            &&& found.analysis.diagnostic_counts.known_limitations == count_of(
                found.analysis.diagnostics@,
                AnalysisDiagnosticSeverity::KnownLimitation,
                diagnostics@.len() as int,
            )
            &&& found.analysis.diagnostic_counts.warnings == count_of(
                found.analysis.diagnostics@,
                AnalysisDiagnosticSeverity::Warning,
                diagnostics@.len() as int,
            )
        },
{
    let ghost stored = revisions@;
    let mut first: Vec<RevisionRow> = reversed(revisions);
    match first.pop() {
        None => None,
        Some(revision) => {
            assert(revision == stored[0]);
            let named: Vec<AnalysisDiagnostic> = attribute(repository, diagnostics);
            assert(diagnostic_models(named@).len() == named@.len());
            let mut incomplete: Vec<bool> = Vec::new();
            incomplete.push(revision.incomplete);
            assert(incomplete@ =~= seq![stored[0].incomplete]);
            Some(
                RepositoryRevision {
                    source_state: revision.source_state,
                    head: nonempty(revision.head),
                    analysis_identity: revision.analysis_identity,
                    analysis: analysis_metadata(&incomplete, named),
                },
            )
        },
    }
}

/// The query for the head of a repository in the published revision of a view.
pub struct PublishedRepositoryHead;

impl MnesticQuery for PublishedRepositoryHead {
    type Row = String;

    type Model = Seq<char>;

    open spec fn model(row: String) -> Seq<char> {
        row@
    }

    open spec fn operation_text() -> Seq<char> {
        "published_repository_head"@
    }

    open spec fn header_texts() -> Seq<Seq<char>> {
        seq!["head"@]
    }

    open spec fn decoded(row: Row) -> Result<Seq<char>, Seq<char>> {
        Ok(cell_text_or_empty(row, 0))
    }

    fn operation() -> (r: &'static str) {
        "published_repository_head"
    }

    fn headers() -> (r: Vec<String>) {
        one_header("head")
    }

    fn decode(row: Vec<InspectionValue>) -> (r: Result<String, QueryError>) {
        Ok(text_or_empty(&row, 0))
    }
}

/// The head that the first row states, unless it is empty.
pub fn published_repository_head(rows: &Vec<String>) -> (r: Option<String>)
    ensures
        optional_text(r) == (if rows@.len() == 0 {
            None
        } else {
            unless_empty(rows@[0]@)
        }),
{
    if rows.len() == 0 {
        None
    } else {
        nonempty(rows[0].clone())
    }
}

} // verus!
