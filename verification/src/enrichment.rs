//! Enrichments: what analyzers contribute to a view apart from its baseline.

use crate::command::{
    bind_integer, bind_rows, bind_text, cells, named_texts, rows_of_texts, text_cell, text_rows, texts_bound,
    texts_command, view_bound, view_command, ArgumentModel, Binding, Cell, CellModel, Command, CommandModel,
};
use crate::domain::{AnalysisDiagnostic, EntityFact, Observation};
use crate::records::{
    command_models, diagnostic_columns, put_in_batches, record_rows, rows_behind, rows_put_in_batches, DependencyOverride, Record,
};
use crate::rows::{cell_text, text_at, InspectionResult, InspectionValue};
use crate::sorted::texts;
use crate::step::add_all;
use crate::text::{decimal, decimal_has_digits, decimal_tells_the_number, decimal_text, replace, replaced, same};
use crate::write_scripts::{
    CLEAR_OWNER_DIAGNOSTICS, CLEAR_OWNER_ENTITIES, CLEAR_OWNER_OBSERVATIONS, CLEAR_OWNER_OVERRIDES, CONTRIBUTIONS, COPY_CONTEXTS,
    COPY_DIAGNOSTICS, COPY_ENRICHMENT_INPUTS, COPY_ENTITIES, COPY_GRPC_DIAGNOSTICS, COPY_INPUTS, COPY_METADATA, COPY_OBSERVATIONS,
    COPY_HEADS, COPY_OVERRIDES, COPY_OVERRIDE_METADATA, COPY_STATES, ENRICHMENT_VERSION, MATERIALIZE_DIAGNOSTICS, MATERIALIZE_ENTITIES,
    MATERIALIZE_OBSERVATIONS, MATERIALIZE_OVERRIDES, MATERIALIZE_OVERRIDE_METADATA, MISSING_DIAGNOSTICS, MISSING_ENRICHMENTS,
    MISSING_ENTITIES, MISSING_OBSERVATIONS, MISSING_OVERRIDES, NEW_DIAGNOSTICS, NEW_ENTITIES, NEW_OBSERVATIONS, NEW_OVERRIDES,
    NEW_OVERRIDE_METADATA, OBSOLETE_OWNERS, PUT_OUTPUT, PUT_OWNER_DIAGNOSTICS, PUT_OWNER_ENTITIES,
    PUT_OWNER_OBSERVATIONS, PUT_OWNER_OVERRIDES, RETRACT_DIAGNOSTICS, RETRACT_ENTITIES, RETRACT_OBSERVATIONS, RETRACT_OVERRIDES,
    RETRACT_OVERRIDE_METADATA, VALID_OWNERS,
};
use vstd::prelude::*;
use vstd::utf8::encode_utf8;

verus! {

/// An analyzer in the version that contributes.
#[derive(Clone, Copy)]
pub struct EnrichmentOwner<'a> {
    pub analyzer: &'a str,
    pub version: &'a str,
}

/// A diagnostic with the repository that it is about.
#[derive(Debug)]
pub struct OwnedDiagnostic {
    pub repository: String,
    pub diagnostic: AnalysisDiagnostic,
}

impl Record for OwnedDiagnostic {
    open spec fn columns(&self) -> Seq<CellModel> {
        seq![CellModel::Text(self.repository@)] + diagnostic_columns(self.diagnostic@)
    }

    fn row(&self) -> (r: Vec<Cell>) {
        let mut row: Vec<Cell> = Vec::new();
        row.push(text_cell(self.repository.as_str()));
        let ghost front = row@;
        let mut rest: Vec<Cell> = self.diagnostic.row();
        let ghost tail = rest@;
        row.append(&mut rest);
        assert(cells(row@) =~= cells(front) + cells(tail));
        assert(cells(front) =~= seq![CellModel::Text(self.repository@)]);
        row
    }
}

/// What an analyzer contributes.
#[derive(Debug)]
pub struct EnrichmentPayload {
    pub entities: Vec<EntityFact>,
    pub observations: Vec<Observation>,
    pub overrides: Vec<DependencyOverride>,
    pub diagnostics: Vec<OwnedDiagnostic>,
}

/// What became of a contribution.
#[derive(Clone, Copy, PartialEq, Eq, Structural, Debug)]
pub enum EnrichmentPublishOutcome {
    Published,
    Unchanged,
    Superseded,
}

/// By what the contribution of an analyzer to a repository is known: how long the name of the
/// analyzer is in bytes, the name, and the repository.
pub open spec fn owner_key(analyzer: Seq<char>, repository: Seq<char>) -> Seq<char> {
    decimal(encode_utf8(analyzer).len()) + ":"@ + analyzer + repository
}

/// By what the contribution of an analyzer to a repository is known.
pub fn enrichment_owner_key(analyzer: &str, repository: &str) -> (r: String)
    ensures
        r@ == owner_key(analyzer@, repository@),
{
    let encoded: &[u8] = analyzer.as_bytes();
    let mut key: String = decimal_text(encoded.len() as u64);
    key.append(":");
    key.append(analyzer);
    key.append(repository);
    key
}

proof fn encoding_grows(a: Seq<char>, c: Seq<char>)
    ensures
        encode_utf8(a + c).len() == encode_utf8(a).len() + encode_utf8(c).len(),
        c.len() > 0 ==> encode_utf8(c).len() > 0,
    decreases a.len(),
{
    if a.len() == 0 {
        assert(a + c =~= c);
    } else {
        encoding_grows(a.drop_first(), c);
        assert((a + c).drop_first() =~= a.drop_first() + c);
    }
}

proof fn encoding_tells_prefixes(a: Seq<char>, b: Seq<char>, x: Seq<char>, y: Seq<char>)
    requires
        a + x == b + y,
        encode_utf8(a).len() == encode_utf8(b).len(),
    ensures
        a == b,
        x == y,
{
    let all = a + x;
    if a.len() <= b.len() {
        let more = b.skip(a.len() as int);
        assert(b =~= a + more) by {
            assert(all.take(a.len() as int) =~= a);
            assert(all.take(b.len() as int) =~= b);
        }
        encoding_grows(a, more);
        assert(a =~= b);
    } else {
        let more = a.skip(b.len() as int);
        assert(a =~= b + more) by {
            assert(all.take(a.len() as int) =~= a);
            assert(all.take(b.len() as int) =~= b);
        }
        encoding_grows(b, more);
        assert(a =~= b);
    }
    assert(x =~= all.skip(a.len() as int));
    assert(y =~= all.skip(b.len() as int));
}

/// Two contributions are known by one key only if analyzer and repository are the same.
pub proof fn owner_keys_are_unambiguous(a: Seq<char>, x: Seq<char>, b: Seq<char>, y: Seq<char>)
    requires
        owner_key(a, x) == owner_key(b, y),
    ensures
        a == b,
        x == y,
{
    reveal_strlit(":");
    let m = encode_utf8(a).len();
    let n = encode_utf8(b).len();
    decimal_has_digits(m);
    decimal_has_digits(n);
    let key = owner_key(a, x);
    let p = decimal(m).len() as int;
    let q = decimal(n).len() as int;
    assert(key[p] == ':');
    assert(owner_key(b, y)[q] == ':');
    if p < q {
        assert(owner_key(b, y)[p] == decimal(n)[p]);
    } else if q < p {
        assert(key[q] == decimal(m)[q]);
    }
    assert(key.take(p) =~= decimal(m));
    assert(owner_key(b, y).take(q) =~= decimal(n));
    decimal_tells_the_number(m, n);
    assert(key.skip(p + 1) =~= a + x);
    assert(owner_key(b, y).skip(q + 1) =~= b + y);
    encoding_tells_prefixes(a, b, x, y);
}

/// The rule that tells which owners contributed from the inputs of a revision.
pub fn valid_enrichment_owner_rule() -> (r: &'static str)
    ensures
        r@ == VALID_OWNERS@,
{
    VALID_OWNERS
}

/// A script about a view and two revisions of it.
pub open spec fn revisions_bound(script: Seq<char>, view: Seq<char>, previous: int, revision: int) -> CommandModel {
    CommandModel {
        script,
        arguments: seq![
            ("view"@, ArgumentModel::One(CellModel::Text(view))),
            ("previous"@, ArgumentModel::One(CellModel::Integer(previous))),
            ("revision"@, ArgumentModel::One(CellModel::Integer(revision))),
        ],
    }
}

/// A script about a view and two revisions of it.
pub fn revisions_command(script: &str, view: &str, previous: i64, revision: i64) -> (r: Command)
    ensures
        r@ == revisions_bound(script@, view@, previous as int, revision as int),
{
    let mut arguments: Vec<Binding> = Vec::new();
    arguments.push(bind_text("view", view));
    arguments.push(bind_integer("previous", previous));
    arguments.push(bind_integer("revision", revision));
    let command: Command = Command { script: script.to_owned(), arguments };
    assert(command@.arguments =~= revisions_bound(script@, view@, previous as int, revision as int).arguments);
    command
}

/// A script about a revision of a view.
pub open spec fn revision_bound(script: Seq<char>, view: Seq<char>, revision: int) -> CommandModel {
    CommandModel {
        script,
        arguments: seq![
            ("view"@, ArgumentModel::One(CellModel::Text(view))),
            ("revision"@, ArgumentModel::One(CellModel::Integer(revision))),
        ],
    }
}

/// A script about a revision of a view.
pub fn revision_command(script: &str, view: &str, revision: i64) -> (r: Command)
    ensures
        r@ == revision_bound(script@, view@, revision as int),
{
    let mut arguments: Vec<Binding> = Vec::new();
    arguments.push(bind_text("view", view));
    arguments.push(bind_integer("revision", revision));
    let command: Command = Command { script: script.to_owned(), arguments };
    assert(command@.arguments =~= revision_bound(script@, view@, revision as int).arguments);
    command
}

/// A script about an owner in a view.
pub open spec fn owner_bound(script: Seq<char>, view: Seq<char>, owner: Seq<char>) -> CommandModel {
    texts_bound(script, seq![("view"@, view), ("owner"@, owner)])
}

/// A script about an owner in a view.
pub fn owner_command(script: &str, view: &str, owner: &str) -> (r: Command)
    ensures
        r@ == owner_bound(script@, view@, owner@),
{
    let pairs: Vec<(&str, &str)> = vec![("view", view), ("owner", owner)];
    assert(named_texts(pairs@) =~= seq![("view"@, view@), ("owner"@, owner@)]);
    texts_command(script, &pairs)
}

/// A script about an owner in a revision of a view.
pub open spec fn owner_revision_bound(script: Seq<char>, view: Seq<char>, owner: Seq<char>, revision: int) -> CommandModel {
    CommandModel {
        script,
        arguments: seq![
            ("view"@, ArgumentModel::One(CellModel::Text(view))),
            ("owner"@, ArgumentModel::One(CellModel::Text(owner))),
            ("revision"@, ArgumentModel::One(CellModel::Integer(revision))),
        ],
    }
}

fn owner_revision_command(script: &str, view: &str, owner: &str, revision: i64) -> (r: Command)
    ensures
        r@ == owner_revision_bound(script@, view@, owner@, revision as int),
{
    let mut arguments: Vec<Binding> = Vec::new();
    arguments.push(bind_text("view", view));
    arguments.push(bind_text("owner", owner));
    arguments.push(bind_integer("revision", revision));
    let command: Command = Command { script: script.to_owned(), arguments };
    assert(command@.arguments =~= owner_revision_bound(script@, view@, owner@, revision as int).arguments);
    command
}

/// What takes the contributions that count into a revision. Baseline facts win collisions, and
/// what stands in the revision already stays.
pub open spec fn materialized(view: Seq<char>, revision: int) -> Seq<CommandModel> {
    seq![
        revision_bound(VALID_OWNERS@ + MATERIALIZE_ENTITIES@, view, revision),
        revision_bound(VALID_OWNERS@ + MATERIALIZE_OBSERVATIONS@, view, revision),
        revision_bound(VALID_OWNERS@ + MATERIALIZE_OVERRIDES@, view, revision),
        revision_bound(VALID_OWNERS@ + MATERIALIZE_OVERRIDE_METADATA@, view, revision),
        revision_bound(VALID_OWNERS@ + MATERIALIZE_DIAGNOSTICS@, view, revision),
    ]
}

fn behind_rule(script: &str) -> (r: String)
    ensures
        r@ == VALID_OWNERS@ + script@,
{
    let mut text: String = valid_enrichment_owner_rule().to_owned();
    text.append(script);
    text
}

/// Asks something about a revision that depends on whose contributions count for it.
pub fn ask_of_valid_owners(script: &str, view: &str, revision: i64) -> (r: Command)
    ensures
        r@ == revision_bound(VALID_OWNERS@ + script@, view@, revision as int),
{
    revision_command(behind_rule(script).as_str(), view, revision)
}

/// Takes the contributions that count into a revision.
pub fn materialize_enrichment_contributions(view: &str, revision: i64) -> (r: Vec<Command>)
    ensures
        command_models(r@) == materialized(view@, revision as int),
{
    let mut commands: Vec<Command> = Vec::new();
    commands.push(revision_command(behind_rule(MATERIALIZE_ENTITIES).as_str(), view, revision));
    commands.push(revision_command(behind_rule(MATERIALIZE_OBSERVATIONS).as_str(), view, revision));
    commands.push(revision_command(behind_rule(MATERIALIZE_OVERRIDES).as_str(), view, revision));
    commands.push(revision_command(behind_rule(MATERIALIZE_OVERRIDE_METADATA).as_str(), view, revision));
    commands.push(revision_command(behind_rule(MATERIALIZE_DIAGNOSTICS).as_str(), view, revision));
    assert(command_models(commands@) =~= materialized(view@, revision as int));
    commands
}

/// What is said of a script that fails, before the reason.
pub open spec fn failure_prefix(script: Seq<char>) -> Seq<char> {
    if script == VALID_OWNERS@ + MATERIALIZE_ENTITIES@ {
        "failed to materialize enrichment relation entities: "@
    } else if script == VALID_OWNERS@ + MATERIALIZE_OBSERVATIONS@ {
        "failed to materialize enrichment relation observations: "@
    } else if script == VALID_OWNERS@ + MATERIALIZE_OVERRIDES@ {
        "failed to materialize enrichment relation overrides: "@
    } else if script == VALID_OWNERS@ + MATERIALIZE_OVERRIDE_METADATA@ {
        "failed to materialize enrichment relation override_metadata: "@
    } else if script == VALID_OWNERS@ + MATERIALIZE_DIAGNOSTICS@ {
        "failed to materialize enrichment relation diagnostics: "@
    } else if script == CONTRIBUTIONS@ {
        "failed to inspect owner contributions: "@
    } else if script == MISSING_ENTITIES@ || script == MISSING_OBSERVATIONS@ || script == MISSING_OVERRIDES@ || script
        == MISSING_DIAGNOSTICS@ {
        "failed to compare incoming effective contribution: "@
    } else {
        Seq::empty()
    }
}

/// How the failure of a command is reported.
pub fn failure(command: &Command, reason: &str) -> (r: String)
    ensures
        r@ == failure_prefix(command@.script) + reason@,
{
    let script: &str = command.script.as_str();
    let mut message: String = if same(script, behind_rule(MATERIALIZE_ENTITIES).as_str()) {
        "failed to materialize enrichment relation entities: ".to_owned()
    } else if same(script, behind_rule(MATERIALIZE_OBSERVATIONS).as_str()) {
        "failed to materialize enrichment relation observations: ".to_owned()
    } else if same(script, behind_rule(MATERIALIZE_OVERRIDES).as_str()) {
        "failed to materialize enrichment relation overrides: ".to_owned()
    } else if same(script, behind_rule(MATERIALIZE_OVERRIDE_METADATA).as_str()) {
        "failed to materialize enrichment relation override_metadata: ".to_owned()
    } else if same(script, behind_rule(MATERIALIZE_DIAGNOSTICS).as_str()) {
        "failed to materialize enrichment relation diagnostics: ".to_owned()
    } else if same(script, CONTRIBUTIONS) {
        "failed to inspect owner contributions: ".to_owned()
    } else if same(script, MISSING_ENTITIES) || same(script, MISSING_OBSERVATIONS) || same(script, MISSING_OVERRIDES) || same(
        script,
        MISSING_DIAGNOSTICS,
    ) {
        "failed to compare incoming effective contribution: ".to_owned()
    } else {
        String::new()
    };
    let ghost prefix = message@;
    message.append(reason);
    assert(prefix =~= failure_prefix(command@.script));
    message
}

/// Asks for the version in which an analyzer contributed what counts.
pub fn ask_enrichment_version(view: &str, repository: &str, analyzer: &str) -> (r: Command)
    ensures
        r@ == texts_bound(
            ENRICHMENT_VERSION@,
            seq![
                ("view"@, view@),
                ("owner"@, owner_key(analyzer@, repository@)),
                ("repository"@, repository@),
                ("analyzer"@, analyzer@),
            ],
        ),
{
    let owner: String = enrichment_owner_key(analyzer, repository);
    let pairs: Vec<(&str, &str)> = vec![("view", view), ("owner", owner.as_str()), ("repository", repository), ("analyzer", analyzer)];
    assert(named_texts(pairs@) =~= seq![
        ("view"@, view@),
        ("owner"@, owner_key(analyzer@, repository@)),
        ("repository"@, repository@),
        ("analyzer"@, analyzer@),
    ]);
    texts_command(ENRICHMENT_VERSION, &pairs)
}

/// Whether what counts was contributed in a version.
pub fn enrichment_matches(answer: &InspectionResult, version: &str) -> (r: bool)
    ensures
        r == (crate::revisions::first_text(answer.rows@) == Some(version@)),
{
    match crate::revisions::first_text_of(&answer.rows) {
        Some(found) => same(found, version),
        None => false,
    }
}

/// Asks for the repositories that lack the contribution of an analyzer in a version.
pub fn ask_missing_enrichments(view: &str, analyzer: &str, version: &str) -> (r: Command)
    ensures
        r@ == texts_bound(MISSING_ENRICHMENTS@, seq![("view"@, view@), ("analyzer"@, analyzer@), ("version"@, version@)]),
{
    let pairs: Vec<(&str, &str)> = vec![("view", view), ("analyzer", analyzer), ("version", version)];
    assert(named_texts(pairs@) =~= seq![("view"@, view@), ("analyzer"@, analyzer@), ("version"@, version@)]);
    texts_command(MISSING_ENRICHMENTS, &pairs)
}

/// Whether all contributions are there: none is missing in any of the answers.
pub fn enrichments_current(answers: &Vec<InspectionResult>) -> (r: bool)
    ensures
        r <==> forall|i: int| 0 <= i < answers@.len() ==> (#[trigger] answers@[i]).rows@.len() == 0,
{
    let mut i: usize = 0;
    while i < answers.len()
        invariant
            i <= answers@.len(),
            forall|k: int| 0 <= k < i ==> (#[trigger] answers@[k]).rows@.len() == 0,
        decreases answers@.len() - i,
    {
        if answers[i].rows.len() > 0 {
            return false;
        }
        i = i + 1;
    }
    true
}

/// What notes that an analyzer contributed.
pub open spec fn completed(
    view: Seq<char>,
    repository: Seq<char>,
    analyzer: Seq<char>,
    version: Seq<char>,
    input_fingerprint: Seq<char>,
) -> CommandModel {
    texts_bound(
        PUT_OUTPUT@,
        seq![
            ("view"@, view),
            ("owner"@, owner_key(analyzer, repository)),
            ("repository"@, repository),
            ("analyzer"@, analyzer),
            ("version"@, version),
            ("input_fingerprint"@, input_fingerprint),
        ],
    )
}

/// Notes that an analyzer contributed.
pub fn complete_enrichment(view: &str, repository: &str, analyzer: &str, version: &str, input_fingerprint: &str) -> (r: Command)
    ensures
        r@ == completed(view@, repository@, analyzer@, version@, input_fingerprint@),
{
    let owner: String = enrichment_owner_key(analyzer, repository);
    let pairs: Vec<(&str, &str)> = vec![
        ("view", view),
        ("owner", owner.as_str()),
        ("repository", repository),
        ("analyzer", analyzer),
        ("version", version),
        ("input_fingerprint", input_fingerprint),
    ];
    assert(named_texts(pairs@) =~= seq![
        ("view"@, view@),
        ("owner"@, owner_key(analyzer@, repository@)),
        ("repository"@, repository@),
        ("analyzer"@, analyzer@),
        ("version"@, version@),
        ("input_fingerprint"@, input_fingerprint@),
    ]);
    texts_command(PUT_OUTPUT, &pairs)
}

/// What copies a revision of a view to another.
pub open spec fn revision_copied(view: Seq<char>, previous: int, revision: int) -> Seq<CommandModel> {
    seq![
        revisions_bound(COPY_STATES@, view, previous, revision),
        revisions_bound(COPY_HEADS@, view, previous, revision),
        revisions_bound(COPY_INPUTS@, view, previous, revision),
        revisions_bound(COPY_ENRICHMENT_INPUTS@, view, previous, revision),
        revisions_bound(COPY_CONTEXTS@, view, previous, revision),
        revisions_bound(COPY_METADATA@, view, previous, revision),
        revisions_bound(COPY_GRPC_DIAGNOSTICS@, view, previous, revision),
        revisions_bound(COPY_ENTITIES@, view, previous, revision),
        revisions_bound(COPY_OBSERVATIONS@, view, previous, revision),
        revisions_bound(COPY_OVERRIDES@, view, previous, revision),
        revisions_bound(COPY_OVERRIDE_METADATA@, view, previous, revision),
        revisions_bound(COPY_DIAGNOSTICS@, view, previous, revision),
    ]
}

/// Copies a revision of a view to another.
pub fn copy_revision(view: &str, previous: i64, revision: i64) -> (r: Vec<Command>)
    ensures
        command_models(r@) == revision_copied(view@, previous as int, revision as int),
{
    let mut commands: Vec<Command> = Vec::new();
    commands.push(revisions_command(COPY_STATES, view, previous, revision));
    commands.push(revisions_command(COPY_HEADS, view, previous, revision));
    commands.push(revisions_command(COPY_INPUTS, view, previous, revision));
    commands.push(revisions_command(COPY_ENRICHMENT_INPUTS, view, previous, revision));
    commands.push(revisions_command(COPY_CONTEXTS, view, previous, revision));
    commands.push(revisions_command(COPY_METADATA, view, previous, revision));
    commands.push(revisions_command(COPY_GRPC_DIAGNOSTICS, view, previous, revision));
    commands.push(revisions_command(COPY_ENTITIES, view, previous, revision));
    commands.push(revisions_command(COPY_OBSERVATIONS, view, previous, revision));
    commands.push(revisions_command(COPY_OVERRIDES, view, previous, revision));
    commands.push(revisions_command(COPY_OVERRIDE_METADATA, view, previous, revision));
    commands.push(revisions_command(COPY_DIAGNOSTICS, view, previous, revision));
    assert(command_models(commands@) =~= revision_copied(view@, previous as int, revision as int));
    commands
}

/// What takes out of a revision all that an owner contributes to.
pub open spec fn retracted(view: Seq<char>, owner: Seq<char>, revision: int) -> Seq<CommandModel> {
    seq![
        owner_revision_bound(RETRACT_ENTITIES@, view, owner, revision),
        owner_revision_bound(RETRACT_OBSERVATIONS@, view, owner, revision),
        owner_revision_bound(RETRACT_OVERRIDES@, view, owner, revision),
        owner_revision_bound(RETRACT_OVERRIDE_METADATA@, view, owner, revision),
        owner_revision_bound(RETRACT_DIAGNOSTICS@, view, owner, revision),
    ]
}

/// Takes out of a revision all that an owner contributes to.
pub fn remove_owner_contribution_keys(view: &str, owner: &str, revision: i64) -> (r: Vec<Command>)
    ensures
        command_models(r@) == retracted(view@, owner@, revision as int),
{
    let mut commands: Vec<Command> = Vec::new();
    commands.push(owner_revision_command(RETRACT_ENTITIES, view, owner, revision));
    commands.push(owner_revision_command(RETRACT_OBSERVATIONS, view, owner, revision));
    commands.push(owner_revision_command(RETRACT_OVERRIDES, view, owner, revision));
    commands.push(owner_revision_command(RETRACT_OVERRIDE_METADATA, view, owner, revision));
    commands.push(owner_revision_command(RETRACT_DIAGNOSTICS, view, owner, revision));
    assert(command_models(commands@) =~= retracted(view@, owner@, revision as int));
    commands
}

/// What the rows of a contribution begin with.
pub open spec fn contribution_front(view: Seq<char>, owner: Seq<char>) -> Seq<CellModel> {
    seq![CellModel::Text(view), CellModel::Text(owner)]
}

/// What replaces the contribution of an owner.
pub open spec fn contributed(view: Seq<char>, owner: Seq<char>, payload: EnrichmentPayload) -> Seq<CommandModel> {
    let front = contribution_front(view, owner);
    seq![
        owner_bound(CLEAR_OWNER_ENTITIES@, view, owner),
        owner_bound(CLEAR_OWNER_OBSERVATIONS@, view, owner),
        owner_bound(CLEAR_OWNER_OVERRIDES@, view, owner),
        owner_bound(CLEAR_OWNER_DIAGNOSTICS@, view, owner),
    ] + rows_put_in_batches(PUT_OWNER_ENTITIES@, record_rows(front, payload.entities@)) + rows_put_in_batches(
        PUT_OWNER_OBSERVATIONS@,
        record_rows(front, payload.observations@),
    ) + rows_put_in_batches(PUT_OWNER_OVERRIDES@, record_rows(front, payload.overrides@)) + rows_put_in_batches(
        PUT_OWNER_DIAGNOSTICS@,
        record_rows(front, payload.diagnostics@),
    )
}

/// Replaces the contribution of an owner.
pub fn replace_enrichment_contributions(view: &str, owner: &str, payload: &EnrichmentPayload) -> (r: Vec<Command>)
    ensures
        command_models(r@) == contributed(view@, owner@, *payload),
{
    let mut front: Vec<Cell> = Vec::new();
    front.push(text_cell(view));
    front.push(text_cell(owner));
    assert(cells(front@) =~= contribution_front(view@, owner@));
    let mut commands: Vec<Command> = Vec::new();
    commands.push(owner_command(CLEAR_OWNER_ENTITIES, view, owner));
    commands.push(owner_command(CLEAR_OWNER_OBSERVATIONS, view, owner));
    commands.push(owner_command(CLEAR_OWNER_OVERRIDES, view, owner));
    commands.push(owner_command(CLEAR_OWNER_DIAGNOSTICS, view, owner));
    assert(command_models(commands@) =~= seq![
        owner_bound(CLEAR_OWNER_ENTITIES@, view@, owner@),
        owner_bound(CLEAR_OWNER_OBSERVATIONS@, view@, owner@),
        owner_bound(CLEAR_OWNER_OVERRIDES@, view@, owner@),
        owner_bound(CLEAR_OWNER_DIAGNOSTICS@, view@, owner@),
    ]);
    add_all(&mut commands, put_in_batches(PUT_OWNER_ENTITIES, rows_behind(&front, &payload.entities)));
    add_all(&mut commands, put_in_batches(PUT_OWNER_OBSERVATIONS, rows_behind(&front, &payload.observations)));
    add_all(&mut commands, put_in_batches(PUT_OWNER_OVERRIDES, rows_behind(&front, &payload.overrides)));
    add_all(&mut commands, put_in_batches(PUT_OWNER_DIAGNOSTICS, rows_behind(&front, &payload.diagnostics)));
    commands
}

/// Asks for owners that no analyzer of a view stands for any more.
pub fn ask_obsolete_owners(view: &str) -> (r: Command)
    ensures
        r@ == view_bound(OBSOLETE_OWNERS@, view@),
{
    view_command(OBSOLETE_OWNERS, view)
}

/// The texts in the first column of the first rows.
pub open spec fn first_column(rows: Seq<Vec<InspectionValue>>, message: Seq<char>, n: int) -> Result<Seq<Seq<char>>, Seq<char>>
    decreases n,
{
    if n <= 0 {
        Ok(Seq::empty())
    } else {
        match first_column(rows, message, n - 1) {
            Err(message) => Err(message),
            Ok(before) => match cell_text(rows[n - 1]@, 0) {
                Some(text) => Ok(before.push(text)),
                None => Err(message),
            },
        }
    }
}

proof fn first_column_error(rows: Seq<Vec<InspectionValue>>, message: Seq<char>, k: int, n: int)
    requires
        0 <= k <= n,
        first_column(rows, message, k) is Err,
    ensures
        first_column(rows, message, n) == first_column(rows, message, k),
    decreases n - k,
{
    if k < n {
        first_column_error(rows, message, k + 1, n);
    }
}

/// Reads the texts in the first column; an error is reported as given.
pub fn decode_first_column(rows: &Vec<Vec<InspectionValue>>, message: &str) -> (r: Result<Vec<String>, String>)
    ensures
        r is Ok <==> first_column(rows@, message@, rows@.len() as int) is Ok,
        r is Ok ==> texts(r->Ok_0@) == first_column(rows@, message@, rows@.len() as int)->Ok_0,
        r is Err ==> r->Err_0@ == first_column(rows@, message@, rows@.len() as int)->Err_0,
{
    let mut list: Vec<String> = Vec::new();
    let mut i: usize = 0;
    assert(texts(list@) =~= Seq::empty());
    while i < rows.len()
        invariant
            i <= rows@.len(),
            first_column(rows@, message@, i as int) is Ok,
            texts(list@) == first_column(rows@, message@, i as int)->Ok_0,
        decreases rows@.len() - i,
    {
        match text_at(&rows[i], 0) {
            Some(found) => {
                let ghost before = list@;
                list.push(found.to_owned());
                assert(texts(list@) =~= texts(before).push(found@));
            },
            None => {
                proof {
                    first_column_error(rows@, message@, i as int + 1, rows@.len() as int);
                }
                return Err(message.to_owned());
            },
        }
        i = i + 1;
    }
    Ok(list)
}

/// How an owner that is no string is reported.
pub const OWNER_NOT_A_STRING: &'static str = "enrichment owner is not a string";

/// The relations that hold what owners contributed, with their keys.
pub open spec fn contribution_relations() -> Seq<(Seq<char>, Seq<char>)> {
    seq![
        ("enrichment_entity_contribution"@, "view, owner, id"@),
        ("enrichment_observation_contribution"@, "view, owner, from, relation, to, evidence"@),
        ("enrichment_override_contribution"@, "view, owner, from, relation, unresolved_to"@),
        ("enrichment_diagnostic_contribution"@, "view, owner, repository, code, severity, path, line"@),
        ("enrichment_output"@, "view, owner"@),
    ]
}

/// The script that removes what obsolete owners contributed to a relation.
pub open spec fn obsolete_removal(relation: Seq<char>, keys: Seq<char>) -> Seq<char> {
    "obsolete[owner] <- $owners\n?["@ + keys + "] := obsolete[owner], *"@ + relation + "{"@ + keys + "}, view = $view :rm "@ + relation
        + " {"@ + keys + "}"@
}

/// What removes what some owners contributed to a relation.
pub open spec fn obsolete_removed(view: Seq<char>, owners: Seq<Seq<char>>, relation: Seq<char>, keys: Seq<char>) -> CommandModel {
    CommandModel {
        script: obsolete_removal(relation, keys),
        arguments: seq![
            ("view"@, ArgumentModel::One(CellModel::Text(view))),
            ("owners"@, ArgumentModel::Rows(text_rows(owners))),
        ],
    }
}

/// What removes all that some owners contributed.
pub open spec fn owners_removed(view: Seq<char>, owners: Seq<Seq<char>>) -> Seq<CommandModel> {
    if owners.len() == 0 {
        Seq::empty()
    } else {
        contribution_relations().map_values(|pair: (Seq<char>, Seq<char>)| obsolete_removed(view, owners, pair.0, pair.1))
    }
}

fn remove_obsolete(view: &str, owners: &Vec<String>, relation: &str, keys: &str) -> (r: Command)
    ensures
        r@ == obsolete_removed(view@, texts(owners@), relation@, keys@),
{
    let mut script: String = "obsolete[owner] <- $owners\n?[".to_owned();
    script.append(keys);
    script.append("] := obsolete[owner], *");
    script.append(relation);
    script.append("{");
    script.append(keys);
    script.append("}, view = $view :rm ");
    script.append(relation);
    script.append(" {");
    script.append(keys);
    script.append("}");
    let mut arguments: Vec<Binding> = Vec::new();
    arguments.push(bind_text("view", view));
    arguments.push(bind_rows("owners", rows_of_texts(owners)));
    let command: Command = Command { script, arguments };
    assert(command@.arguments =~= obsolete_removed(view@, texts(owners@), relation@, keys@).arguments);
    command
}

/// Removes all that some owners contributed.
pub fn remove_enrichment_state(view: &str, owners: &Vec<String>) -> (r: Vec<Command>)
    ensures
        command_models(r@) == owners_removed(view@, texts(owners@)),
{
    let mut commands: Vec<Command> = Vec::new();
    assert(texts(owners@).len() == owners@.len());
    if owners.len() > 0 {
        commands.push(remove_obsolete(view, owners, "enrichment_entity_contribution", "view, owner, id"));
        commands.push(
            remove_obsolete(view, owners, "enrichment_observation_contribution", "view, owner, from, relation, to, evidence"),
        );
        commands.push(
            remove_obsolete(view, owners, "enrichment_override_contribution", "view, owner, from, relation, unresolved_to"),
        );
        commands.push(
            remove_obsolete(view, owners, "enrichment_diagnostic_contribution", "view, owner, repository, code, severity, path, line"),
        );
        commands.push(remove_obsolete(view, owners, "enrichment_output", "view, owner"));
    }
    assert(command_models(commands@) =~= owners_removed(view@, texts(owners@)));
    commands
}

/// A question about what a revision has and another lacks, turned round.
pub open spec fn turned_round(query: Seq<char>) -> Seq<char> {
    replaced(
        replaced(
            replaced(query, "revision: $revision"@, "revision: $swap"@),
            "revision: $previous"@,
            "revision: $revision"@,
        ),
        "revision: $swap"@,
        "revision: $previous"@,
    )
}

fn turn_round(query: &str) -> (r: String)
    ensures
        r@ == turned_round(query@),
{
    proof {
        reveal_strlit("revision: $revision");
        reveal_strlit("revision: $previous");
        reveal_strlit("revision: $swap");
    }
    let first: String = replace(query, "revision: $revision", "revision: $swap");
    let second: String = replace(first.as_str(), "revision: $previous", "revision: $revision");
    replace(second.as_str(), "revision: $swap", "revision: $previous")
}

/// How many questions tell whether two revisions differ.
pub const COMPARISONS: u8 = 10;

/// What a revision can have that another lacks.
pub open spec fn comparison_query(i: int) -> Seq<char> {
    if i == 0 {
        NEW_ENTITIES@
    } else if i == 1 {
        NEW_OBSERVATIONS@
    } else if i == 2 {
        NEW_DIAGNOSTICS@
    } else if i == 3 {
        NEW_OVERRIDES@
    } else {
        NEW_OVERRIDE_METADATA@
    }
}

/// The questions that tell whether two revisions differ: what the one has that the other lacks,
/// kind by kind, each in both directions.
pub open spec fn comparison(i: int, view: Seq<char>, previous: int, revision: int) -> CommandModel {
    let query = comparison_query(i / 2);
    revisions_bound(
        if i % 2 == 0 {
            query
        } else {
            turned_round(query)
        },
        view,
        previous,
        revision,
    )
}

/// Asks one of the questions that tell whether two revisions differ.
pub fn ask_comparison(i: u8, view: &str, previous: i64, revision: i64) -> (r: Command)
    ensures
        r@ == comparison(i as int, view@, previous as int, revision as int),
{
    let kind: u8 = i / 2;
    let query: &str = if kind == 0 {
        NEW_ENTITIES
    } else if kind == 1 {
        NEW_OBSERVATIONS
    } else if kind == 2 {
        NEW_DIAGNOSTICS
    } else if kind == 3 {
        NEW_OVERRIDES
    } else {
        NEW_OVERRIDE_METADATA
    };
    if i % 2 == 0 {
        revisions_command(query, view, previous, revision)
    } else {
        revisions_command(turn_round(query).as_str(), view, previous, revision)
    }
}

/// The relations that hold a revision, with their keys.
pub open spec fn revision_relations() -> Seq<(Seq<char>, Seq<char>)> {
    seq![
        ("analysis_revision_state"@, "view, revision, repository"@),
        ("analysis_revision_repository_head"@, "view, revision, repository"@),
        ("analysis_revision_input"@, "view, revision, repository"@),
        ("analysis_revision_enrichment_input"@, "view, revision, repository, analyzer"@),
        ("analysis_revision_context"@, "view, revision, target, analyzer, context"@),
        ("analysis_revision_metadata"@, "view, revision"@),
        ("analysis_revision_grpc_diagnostic"@, "view, revision, local_symbol, role, service, method, evidence"@),
        ("analysis_revision_entity"@, "view, revision, id"@),
        ("analysis_revision_observation"@, "view, revision, from, relation, to, evidence"@),
        ("analysis_revision_diagnostic"@, "view, revision, repository, code, severity, path, line"@),
        ("analysis_revision_dependency_override"@, "view, revision, from, relation, unresolved_to"@),
        ("analysis_revision_dependency_override_metadata"@, "view, revision, from, relation, unresolved_to"@),
    ]
}

/// The script that removes a revision from a relation.
pub open spec fn revision_removal(relation: Seq<char>, keys: Seq<char>) -> Seq<char> {
    "?["@ + keys + "] := *"@ + relation + "{"@ + keys + "}, view = $view, revision = $revision :rm "@ + relation + " {"@ + keys + "}"@
}

/// What removes a revision of a view.
pub open spec fn revision_removed(view: Seq<char>, revision: int) -> Seq<CommandModel> {
    revision_relations().map_values(
        |pair: (Seq<char>, Seq<char>)| revision_bound(revision_removal(pair.0, pair.1), view, revision),
    )
}

fn remove_revision_from(view: &str, revision: i64, relation: &str, keys: &str) -> (r: Command)
    ensures
        r@ == revision_bound(revision_removal(relation@, keys@), view@, revision as int),
{
    let mut script: String = "?[".to_owned();
    script.append(keys);
    script.append("] := *");
    script.append(relation);
    script.append("{");
    script.append(keys);
    script.append("}, view = $view, revision = $revision :rm ");
    script.append(relation);
    script.append(" {");
    script.append(keys);
    script.append("}");
    revision_command(script.as_str(), view, revision)
}

/// Removes a revision of a view.
pub fn remove_revision_candidate(view: &str, revision: i64) -> (r: Vec<Command>)
    ensures
        command_models(r@) == revision_removed(view@, revision as int),
{
    let mut commands: Vec<Command> = Vec::new();
    commands.push(remove_revision_from(view, revision, "analysis_revision_state", "view, revision, repository"));
    commands.push(remove_revision_from(view, revision, "analysis_revision_repository_head", "view, revision, repository"));
    commands.push(remove_revision_from(view, revision, "analysis_revision_input", "view, revision, repository"));
    commands.push(
        remove_revision_from(view, revision, "analysis_revision_enrichment_input", "view, revision, repository, analyzer"),
    );
    commands.push(remove_revision_from(view, revision, "analysis_revision_context", "view, revision, target, analyzer, context"));
    commands.push(remove_revision_from(view, revision, "analysis_revision_metadata", "view, revision"));
    commands.push(
        remove_revision_from(
            view,
            revision,
            "analysis_revision_grpc_diagnostic",
            "view, revision, local_symbol, role, service, method, evidence",
        ),
    );
    commands.push(remove_revision_from(view, revision, "analysis_revision_entity", "view, revision, id"));
    commands.push(
        remove_revision_from(view, revision, "analysis_revision_observation", "view, revision, from, relation, to, evidence"),
    );
    commands.push(
        remove_revision_from(
            view,
            revision,
            "analysis_revision_diagnostic",
            "view, revision, repository, code, severity, path, line",
        ),
    );
    commands.push(
        remove_revision_from(
            view,
            revision,
            "analysis_revision_dependency_override",
            "view, revision, from, relation, unresolved_to",
        ),
    );
    commands.push(
        remove_revision_from(
            view,
            revision,
            "analysis_revision_dependency_override_metadata",
            "view, revision, from, relation, unresolved_to",
        ),
    );
    assert(command_models(commands@) =~= revision_removed(view@, revision as int));
    commands
}

} // verus!
