//! Setting a database up: which relations are created, and how data are brought up to date.

use crate::collection::{plain, plain_command};
use crate::command::{bind_integer, bind_text, ArgumentModel, Binding, CellModel, Command, CommandModel};
use crate::records::command_models;
use crate::rows::{cell_text, text_at, InspectionResult, InspectionValue};
use crate::schema::{
    BASED_DIAGNOSTICS, BASED_ENTITIES, BASED_OBSERVATIONS, BASED_OVERRIDES, BASED_STATE_ENTITIES, BASED_STATE_OBSERVATIONS,
    BASELINE_MIGRATED, CREATE_ANALYSIS_DIAGNOSTIC_SCHEMA, CREATE_ANALYSIS_METADATA_SCHEMA,
    CREATE_BASELINE_DIAGNOSTIC_SCHEMA, CREATE_BASELINE_ENTITY_SCHEMA, CREATE_BASELINE_FINGERPRINT_SCHEMA,
    CREATE_BASELINE_OBSERVATION_SCHEMA, CREATE_BASELINE_OVERRIDE_SCHEMA, CREATE_DEPENDENCY_SCHEMA,
    CREATE_ENRICHMENT_DIAGNOSTIC_CONTRIBUTION_SCHEMA, CREATE_ENRICHMENT_DIAGNOSTIC_OWNER_SCHEMA,
    CREATE_ENRICHMENT_ENTITY_CONTRIBUTION_SCHEMA, CREATE_ENRICHMENT_ENTITY_OWNER_SCHEMA, CREATE_ENRICHMENT_INPUT_SCHEMA,
    CREATE_ENRICHMENT_OBSERVATION_CONTRIBUTION_SCHEMA, CREATE_ENRICHMENT_OBSERVATION_OWNER_SCHEMA,
    CREATE_ENRICHMENT_OUTPUT_SCHEMA, CREATE_ENRICHMENT_OVERRIDE_CONTRIBUTION_SCHEMA,
    CREATE_ENRICHMENT_OVERRIDE_OWNER_SCHEMA, CREATE_ENRICHMENT_SCHEMA, CREATE_ENTITY_SCHEMA,
    CREATE_FACT_SHARD_DEPENDENCY_SCHEMA, CREATE_FACT_SHARD_ENTITY_SCHEMA, CREATE_FACT_SHARD_OBSERVATION_SCHEMA,
    CREATE_FACT_SHARD_SELECTION_SCHEMA, CREATE_FINGERPRINT_SCHEMA, CREATE_GARBAGE_COLLECTION_STATE_SCHEMA,
    CREATE_GRPC_BINDING_SCHEMA, CREATE_GRPC_DIAGNOSTIC_SCHEMA, CREATE_METADATA_SCHEMA, CREATE_METADATA_TO_INDEX,
    CREATE_OBSERVATION_TO_INDEX, CREATE_OVERRIDE_METADATA_SCHEMA, CREATE_OVERRIDE_SCHEMA,
    CREATE_REPOSITORY_ENRICHMENT_SCHEMA, CREATE_REPOSITORY_HEAD_SCHEMA, CREATE_REPOSITORY_REVISION_DIAGNOSTIC_SCHEMA,
    CREATE_REPOSITORY_REVISION_SCHEMA, CREATE_REPOSITORY_STATE_SCHEMA, CREATE_REVISION_CONTEXT_SCHEMA,
    CREATE_REVISION_ENTITY_SCHEMA, CREATE_REVISION_INPUT_SCHEMA, CREATE_REVISION_OBSERVATION_SCHEMA,
    CREATE_REVISION_OBSERVATION_TO_INDEX, CREATE_REVISION_SCHEMA, CREATE_REVISION_STATE_SCHEMA, CREATE_SCHEMA,
    CREATE_SCHEMA_MIGRATION_SCHEMA, CREATE_VERIFICATION_FINGERPRINT_SCHEMA, FIRST_FINGERPRINT, FIRST_REVISION,
    MIGRATION_APPLIED, OWNED_DIAGNOSTICS, OWNED_ENTITIES, OWNED_OBSERVATIONS, OWNED_OUTPUTS, OWNED_OVERRIDES,
    OWNERSHIP_MIGRATED, SEED, SEED_DEPENDENCIES, SEED_METADATA, SEED_REVISIONS, SEED_STATES,
};
use crate::seqs::concat_range;
use crate::text::same;
use vstd::prelude::*;

verus! {

/// Where a database is held.
#[derive(Debug)]
pub enum Storage {
    Memory,
    Sqlite(String),
}

/// Where a database is to be held, by the name of the storage. A database on disk needs a path,
/// and can be had only where that storage is built in.
pub fn benchmark_database(storage: &str, path: Option<&str>, built_in: bool) -> (r: Result<Storage, String>)
    ensures
        storage@ == "mem"@ ==> r is Ok && r->Ok_0 is Memory,
        storage@ == "sqlite"@ && storage@ != "mem"@ ==> {
            if !built_in {
                r is Err && r->Err_0@ == "build with --features sqlite to benchmark SQLite"@
            } else {
                match path {
                    Some(path) => r is Ok && r->Ok_0 is Sqlite && r->Ok_0->Sqlite_0@ == path@,
                    None => r is Err && r->Err_0@ == "sqlite benchmark requires a database path"@,
                }
            }
        },
        storage@ != "mem"@ && storage@ != "sqlite"@ ==> r is Err && r->Err_0@ == "storage must be mem or sqlite"@,
{
    if same(storage, "mem") {
        return Ok(Storage::Memory);
    }
    if !same(storage, "sqlite") {
        return Err("storage must be mem or sqlite".to_owned());
    }
    if !built_in {
        return Err("build with --features sqlite to benchmark SQLite".to_owned());
    }
    match path {
        Some(path) => Ok(Storage::Sqlite(path.to_owned())),
        None => Err("sqlite benchmark requires a database path".to_owned()),
    }
}

/// Why a database cannot be opened at a path, if it cannot. A database that does not exist is
/// opened only to be set up.
pub fn check_database(path: &str, exists: bool, initialize: bool) -> (r: Option<String>)
    ensures
        path@.len() == 0 ==> r is Some && r->0@ == "database path must not be empty"@,
        path@.len() > 0 && !exists && !initialize ==> r is Some && r->0@ == "database does not exist: "@ + path@,
        path@.len() > 0 && (exists || initialize) ==> r is None,
{
    if path.unicode_len() == 0 {
        return Some("database path must not be empty".to_owned());
    }
    if !exists && !initialize {
        let mut message: String = "database does not exist: ".to_owned();
        message.append(path);
        return Some(message);
    }
    None
}

/// How many scripts set a database in memory up.
pub const MEMORY_SCRIPTS: usize = 53;

/// The scripts that set a database in memory up.
pub open spec fn memory_script(i: int) -> Seq<char> {
    if i == 0 {
        CREATE_SCHEMA@
    } else if i == 1 {
        CREATE_DEPENDENCY_SCHEMA@
    } else if i == 2 {
        CREATE_METADATA_SCHEMA@
    } else if i == 3 {
        CREATE_ENTITY_SCHEMA@
    } else if i == 4 {
        CREATE_GRPC_BINDING_SCHEMA@
    } else if i == 5 {
        CREATE_REVISION_OBSERVATION_SCHEMA@
    } else if i == 6 {
        CREATE_REVISION_ENTITY_SCHEMA@
    } else if i == 7 {
        CREATE_GRPC_DIAGNOSTIC_SCHEMA@
    } else if i == 8 {
        CREATE_ANALYSIS_METADATA_SCHEMA@
    } else if i == 9 {
        CREATE_ANALYSIS_DIAGNOSTIC_SCHEMA@
    } else if i == 10 {
        CREATE_ENRICHMENT_SCHEMA@
    } else if i == 11 {
        CREATE_REVISION_INPUT_SCHEMA@
    } else if i == 12 {
        CREATE_REVISION_CONTEXT_SCHEMA@
    } else if i == 13 {
        CREATE_ENRICHMENT_INPUT_SCHEMA@
    } else if i == 14 {
        CREATE_REPOSITORY_ENRICHMENT_SCHEMA@
    } else if i == 15 {
        CREATE_ENRICHMENT_OVERRIDE_OWNER_SCHEMA@
    } else if i == 16 {
        CREATE_ENRICHMENT_DIAGNOSTIC_OWNER_SCHEMA@
    } else if i == 17 {
        CREATE_ENRICHMENT_ENTITY_OWNER_SCHEMA@
    } else if i == 18 {
        CREATE_ENRICHMENT_OBSERVATION_OWNER_SCHEMA@
    } else if i == 19 {
        CREATE_ENRICHMENT_OUTPUT_SCHEMA@
    } else if i == 20 {
        CREATE_ENRICHMENT_ENTITY_CONTRIBUTION_SCHEMA@
    } else if i == 21 {
        CREATE_ENRICHMENT_OBSERVATION_CONTRIBUTION_SCHEMA@
    } else if i == 22 {
        CREATE_ENRICHMENT_OVERRIDE_CONTRIBUTION_SCHEMA@
    } else if i == 23 {
        CREATE_ENRICHMENT_DIAGNOSTIC_CONTRIBUTION_SCHEMA@
    } else if i == 24 {
        CREATE_BASELINE_ENTITY_SCHEMA@
    } else if i == 25 {
        CREATE_BASELINE_OBSERVATION_SCHEMA@
    } else if i == 26 {
        CREATE_BASELINE_OVERRIDE_SCHEMA@
    } else if i == 27 {
        CREATE_BASELINE_DIAGNOSTIC_SCHEMA@
    } else if i == 28 {
        CREATE_FACT_SHARD_SELECTION_SCHEMA@
    } else if i == 29 {
        CREATE_FACT_SHARD_ENTITY_SCHEMA@
    } else if i == 30 {
        CREATE_FACT_SHARD_OBSERVATION_SCHEMA@
    } else if i == 31 {
        CREATE_FACT_SHARD_DEPENDENCY_SCHEMA@
    } else if i == 32 {
        CREATE_BASELINE_FINGERPRINT_SCHEMA@
    } else if i == 33 {
        CREATE_SCHEMA_MIGRATION_SCHEMA@
    } else if i == 34 {
        CREATE_OBSERVATION_TO_INDEX@
    } else if i == 35 {
        CREATE_METADATA_TO_INDEX@
    } else if i == 36 {
        CREATE_REVISION_OBSERVATION_TO_INDEX@
    } else if i == 37 {
        CREATE_OVERRIDE_SCHEMA@
    } else if i == 38 {
        CREATE_OVERRIDE_METADATA_SCHEMA@
    } else if i == 39 {
        CREATE_REVISION_SCHEMA@
    } else if i == 40 {
        CREATE_REVISION_STATE_SCHEMA@
    } else if i == 41 {
        CREATE_REPOSITORY_HEAD_SCHEMA@
    } else if i == 42 {
        CREATE_FINGERPRINT_SCHEMA@
    } else if i == 43 {
        CREATE_VERIFICATION_FINGERPRINT_SCHEMA@
    } else if i == 44 {
        CREATE_REPOSITORY_STATE_SCHEMA@
    } else if i == 45 {
        CREATE_REPOSITORY_REVISION_SCHEMA@
    } else if i == 46 {
        CREATE_REPOSITORY_REVISION_DIAGNOSTIC_SCHEMA@
    } else if i == 47 {
        CREATE_GARBAGE_COLLECTION_STATE_SCHEMA@
    } else if i == 48 {
        SEED@
    } else if i == 49 {
        SEED_DEPENDENCIES@
    } else if i == 50 {
        SEED_METADATA@
    } else if i == 51 {
        SEED_REVISIONS@
    } else {
        SEED_STATES@
    }
}

fn script_of_memory(i: usize) -> (r: &'static str)
    ensures
        r@ == memory_script(i as int),
{
    if i == 0 {
        CREATE_SCHEMA
    } else if i == 1 {
        CREATE_DEPENDENCY_SCHEMA
    } else if i == 2 {
        CREATE_METADATA_SCHEMA
    } else if i == 3 {
        CREATE_ENTITY_SCHEMA
    } else if i == 4 {
        CREATE_GRPC_BINDING_SCHEMA
    } else if i == 5 {
        CREATE_REVISION_OBSERVATION_SCHEMA
    } else if i == 6 {
        CREATE_REVISION_ENTITY_SCHEMA
    } else if i == 7 {
        CREATE_GRPC_DIAGNOSTIC_SCHEMA
    } else if i == 8 {
        CREATE_ANALYSIS_METADATA_SCHEMA
    } else if i == 9 {
        CREATE_ANALYSIS_DIAGNOSTIC_SCHEMA
    } else if i == 10 {
        CREATE_ENRICHMENT_SCHEMA
    } else if i == 11 {
        CREATE_REVISION_INPUT_SCHEMA
    } else if i == 12 {
        CREATE_REVISION_CONTEXT_SCHEMA
    } else if i == 13 {
        CREATE_ENRICHMENT_INPUT_SCHEMA
    } else if i == 14 {
        CREATE_REPOSITORY_ENRICHMENT_SCHEMA
    } else if i == 15 {
        CREATE_ENRICHMENT_OVERRIDE_OWNER_SCHEMA
    } else if i == 16 {
        CREATE_ENRICHMENT_DIAGNOSTIC_OWNER_SCHEMA
    } else if i == 17 {
        CREATE_ENRICHMENT_ENTITY_OWNER_SCHEMA
    } else if i == 18 {
        CREATE_ENRICHMENT_OBSERVATION_OWNER_SCHEMA
    } else if i == 19 {
        CREATE_ENRICHMENT_OUTPUT_SCHEMA
    } else if i == 20 {
        CREATE_ENRICHMENT_ENTITY_CONTRIBUTION_SCHEMA
    } else if i == 21 {
        CREATE_ENRICHMENT_OBSERVATION_CONTRIBUTION_SCHEMA
    } else if i == 22 {
        CREATE_ENRICHMENT_OVERRIDE_CONTRIBUTION_SCHEMA
    } else if i == 23 {
        CREATE_ENRICHMENT_DIAGNOSTIC_CONTRIBUTION_SCHEMA
    } else if i == 24 {
        CREATE_BASELINE_ENTITY_SCHEMA
    } else if i == 25 {
        CREATE_BASELINE_OBSERVATION_SCHEMA
    } else if i == 26 {
        CREATE_BASELINE_OVERRIDE_SCHEMA
    } else if i == 27 {
        CREATE_BASELINE_DIAGNOSTIC_SCHEMA
    } else if i == 28 {
        CREATE_FACT_SHARD_SELECTION_SCHEMA
    } else if i == 29 {
        CREATE_FACT_SHARD_ENTITY_SCHEMA
    } else if i == 30 {
        CREATE_FACT_SHARD_OBSERVATION_SCHEMA
    } else if i == 31 {
        CREATE_FACT_SHARD_DEPENDENCY_SCHEMA
    } else if i == 32 {
        CREATE_BASELINE_FINGERPRINT_SCHEMA
    } else if i == 33 {
        CREATE_SCHEMA_MIGRATION_SCHEMA
    } else if i == 34 {
        CREATE_OBSERVATION_TO_INDEX
    } else if i == 35 {
        CREATE_METADATA_TO_INDEX
    } else if i == 36 {
        CREATE_REVISION_OBSERVATION_TO_INDEX
    } else if i == 37 {
        CREATE_OVERRIDE_SCHEMA
    } else if i == 38 {
        CREATE_OVERRIDE_METADATA_SCHEMA
    } else if i == 39 {
        CREATE_REVISION_SCHEMA
    } else if i == 40 {
        CREATE_REVISION_STATE_SCHEMA
    } else if i == 41 {
        CREATE_REPOSITORY_HEAD_SCHEMA
    } else if i == 42 {
        CREATE_FINGERPRINT_SCHEMA
    } else if i == 43 {
        CREATE_VERIFICATION_FINGERPRINT_SCHEMA
    } else if i == 44 {
        CREATE_REPOSITORY_STATE_SCHEMA
    } else if i == 45 {
        CREATE_REPOSITORY_REVISION_SCHEMA
    } else if i == 46 {
        CREATE_REPOSITORY_REVISION_DIAGNOSTIC_SCHEMA
    } else if i == 47 {
        CREATE_GARBAGE_COLLECTION_STATE_SCHEMA
    } else if i == 48 {
        SEED
    } else if i == 49 {
        SEED_DEPENDENCIES
    } else if i == 50 {
        SEED_METADATA
    } else if i == 51 {
        SEED_REVISIONS
    } else {
        SEED_STATES
    }
}

/// What sets a database in memory up.
pub open spec fn memory_created() -> Seq<CommandModel> {
    Seq::new(MEMORY_SCRIPTS as nat, |i: int| plain(memory_script(i)))
}

/// Sets a database in memory up.
pub fn memory_database() -> (r: Vec<Command>)
    ensures
        command_models(r@) == memory_created(),
{
    let mut commands: Vec<Command> = Vec::new();
    let mut i: usize = 0;
    while i < MEMORY_SCRIPTS
        invariant
            i <= MEMORY_SCRIPTS,
            commands@.len() == i,
            forall|k: int| 0 <= k < i ==> (#[trigger] commands@[k])@ == plain(memory_script(k)),
        decreases MEMORY_SCRIPTS - i,
    {
        commands.push(plain_command(script_of_memory(i)));
        i = i + 1;
    }
    assert(command_models(commands@) =~= memory_created());
    commands
}

/// Whether a relation is there.
pub open spec fn has_relation(rows: Seq<Vec<InspectionValue>>, name: Seq<char>) -> bool {
    exists|i: int| 0 <= i < rows.len() && cell_text((#[trigger] rows[i])@, 0) == Some(name)
}

/// Tells whether a relation is there.
pub fn is_there(rows: &Vec<Vec<InspectionValue>>, name: &str) -> (r: bool)
    ensures
        r == has_relation(rows@, name@),
{
    let mut i: usize = 0;
    while i < rows.len()
        invariant
            i <= rows@.len(),
            forall|k: int| 0 <= k < i ==> cell_text((#[trigger] rows@[k])@, 0) != Some(name@),
        decreases rows@.len() - i,
    {
        match text_at(&rows[i], 0) {
            Some(found) => {
                if same(found, name) {
                    assert(cell_text(rows@[i as int]@, 0) == Some(name@));
                    return true;
                }
            },
            None => {},
        }
        i = i + 1;
    }
    false
}

/// Asks for the relations that are there.
pub fn ask_relations() -> (r: Command)
    ensures
        r@ == plain("::relations"@),
{
    plain_command("::relations")
}

/// How many relations a database consists of.
pub const RELATIONS: usize = 45;

/// The relations that a database consists of.
pub open spec fn relation_name(i: int) -> Seq<char> {
    if i == 0 {
        "state_observation"@
    } else if i == 1 {
        "state_observation_metadata"@
    } else if i == 2 {
        "garbage_collection_state"@
    } else if i == 3 {
        "analysis_verification_fingerprint"@
    } else if i == 4 {
        "state_entity"@
    } else if i == 5 {
        "state_grpc_binding_candidate"@
    } else if i == 6 {
        "analysis_revision_observation"@
    } else if i == 7 {
        "analysis_revision_entity"@
    } else if i == 8 {
        "analysis_revision_grpc_diagnostic"@
    } else if i == 9 {
        "analysis_revision_metadata"@
    } else if i == 10 {
        "analysis_revision_diagnostic"@
    } else if i == 11 {
        "analysis_revision_enrichment"@
    } else if i == 12 {
        "analysis_revision_input"@
    } else if i == 13 {
        "analysis_revision_context"@
    } else if i == 14 {
        "analysis_revision_enrichment_input"@
    } else if i == 15 {
        "analysis_revision_repository_enrichment"@
    } else if i == 16 {
        "analysis_revision_enrichment_override_owner"@
    } else if i == 17 {
        "analysis_revision_enrichment_diagnostic_owner"@
    } else if i == 18 {
        "analysis_revision_enrichment_entity_owner"@
    } else if i == 19 {
        "analysis_revision_enrichment_observation_owner"@
    } else if i == 20 {
        "enrichment_output"@
    } else if i == 21 {
        "enrichment_entity_contribution"@
    } else if i == 22 {
        "enrichment_observation_contribution"@
    } else if i == 23 {
        "enrichment_override_contribution"@
    } else if i == 24 {
        "enrichment_diagnostic_contribution"@
    } else if i == 25 {
        "analysis_baseline_entity"@
    } else if i == 26 {
        "analysis_baseline_observation"@
    } else if i == 27 {
        "analysis_baseline_dependency_override"@
    } else if i == 28 {
        "analysis_baseline_diagnostic"@
    } else if i == 29 {
        "analysis_fact_shard_selection"@
    } else if i == 30 {
        "analysis_fact_shard_entity"@
    } else if i == 31 {
        "analysis_fact_shard_observation"@
    } else if i == 32 {
        "analysis_fact_shard_dependency_observation"@
    } else if i == 33 {
        "analysis_baseline_fingerprint"@
    } else if i == 34 {
        "schema_migration"@
    } else if i == 35 {
        "repository_revision"@
    } else if i == 36 {
        "repository_revision_diagnostic"@
    } else if i == 37 {
        "state_dependency_observation"@
    } else if i == 38 {
        "analysis_revision_dependency_override_metadata"@
    } else if i == 39 {
        "analysis_revision_dependency_override"@
    } else if i == 40 {
        "analysis_revision"@
    } else if i == 41 {
        "analysis_fingerprint"@
    } else if i == 42 {
        "repository_state"@
    } else if i == 43 {
        "analysis_revision_state"@
    } else {
        "analysis_revision_repository_head"@
    }
}

/// The scripts that create the relations.
pub open spec fn relation_script(i: int) -> Seq<char> {
    if i == 0 {
        CREATE_SCHEMA@
    } else if i == 1 {
        CREATE_METADATA_SCHEMA@
    } else if i == 2 {
        CREATE_GARBAGE_COLLECTION_STATE_SCHEMA@
    } else if i == 3 {
        CREATE_VERIFICATION_FINGERPRINT_SCHEMA@
    } else if i == 4 {
        CREATE_ENTITY_SCHEMA@
    } else if i == 5 {
        CREATE_GRPC_BINDING_SCHEMA@
    } else if i == 6 {
        CREATE_REVISION_OBSERVATION_SCHEMA@
    } else if i == 7 {
        CREATE_REVISION_ENTITY_SCHEMA@
    } else if i == 8 {
        CREATE_GRPC_DIAGNOSTIC_SCHEMA@
    } else if i == 9 {
        CREATE_ANALYSIS_METADATA_SCHEMA@
    } else if i == 10 {
        CREATE_ANALYSIS_DIAGNOSTIC_SCHEMA@
    } else if i == 11 {
        CREATE_ENRICHMENT_SCHEMA@
    } else if i == 12 {
        CREATE_REVISION_INPUT_SCHEMA@
    } else if i == 13 {
        CREATE_REVISION_CONTEXT_SCHEMA@
    } else if i == 14 {
        CREATE_ENRICHMENT_INPUT_SCHEMA@
    } else if i == 15 {
        CREATE_REPOSITORY_ENRICHMENT_SCHEMA@
    } else if i == 16 {
        CREATE_ENRICHMENT_OVERRIDE_OWNER_SCHEMA@
    } else if i == 17 {
        CREATE_ENRICHMENT_DIAGNOSTIC_OWNER_SCHEMA@
    } else if i == 18 {
        CREATE_ENRICHMENT_ENTITY_OWNER_SCHEMA@
    } else if i == 19 {
        CREATE_ENRICHMENT_OBSERVATION_OWNER_SCHEMA@
    } else if i == 20 {
        CREATE_ENRICHMENT_OUTPUT_SCHEMA@
    } else if i == 21 {
        CREATE_ENRICHMENT_ENTITY_CONTRIBUTION_SCHEMA@
    } else if i == 22 {
        CREATE_ENRICHMENT_OBSERVATION_CONTRIBUTION_SCHEMA@
    } else if i == 23 {
        CREATE_ENRICHMENT_OVERRIDE_CONTRIBUTION_SCHEMA@
    } else if i == 24 {
        CREATE_ENRICHMENT_DIAGNOSTIC_CONTRIBUTION_SCHEMA@
    } else if i == 25 {
        CREATE_BASELINE_ENTITY_SCHEMA@
    } else if i == 26 {
        CREATE_BASELINE_OBSERVATION_SCHEMA@
    } else if i == 27 {
        CREATE_BASELINE_OVERRIDE_SCHEMA@
    } else if i == 28 {
        CREATE_BASELINE_DIAGNOSTIC_SCHEMA@
    } else if i == 29 {
        CREATE_FACT_SHARD_SELECTION_SCHEMA@
    } else if i == 30 {
        CREATE_FACT_SHARD_ENTITY_SCHEMA@
    } else if i == 31 {
        CREATE_FACT_SHARD_OBSERVATION_SCHEMA@
    } else if i == 32 {
        CREATE_FACT_SHARD_DEPENDENCY_SCHEMA@
    } else if i == 33 {
        CREATE_BASELINE_FINGERPRINT_SCHEMA@
    } else if i == 34 {
        CREATE_SCHEMA_MIGRATION_SCHEMA@
    } else if i == 35 {
        CREATE_REPOSITORY_REVISION_SCHEMA@
    } else if i == 36 {
        CREATE_REPOSITORY_REVISION_DIAGNOSTIC_SCHEMA@
    } else if i == 37 {
        CREATE_DEPENDENCY_SCHEMA@
    } else if i == 38 {
        CREATE_OVERRIDE_METADATA_SCHEMA@
    } else if i == 39 {
        CREATE_OVERRIDE_SCHEMA@
    } else if i == 40 {
        CREATE_REVISION_SCHEMA@
    } else if i == 41 {
        CREATE_FINGERPRINT_SCHEMA@
    } else if i == 42 {
        CREATE_REPOSITORY_STATE_SCHEMA@
    } else if i == 43 {
        CREATE_REVISION_STATE_SCHEMA@
    } else {
        CREATE_REPOSITORY_HEAD_SCHEMA@
    }
}

/// What a relation begins with, if it begins with anything.
pub open spec fn relation_seed(i: int) -> Option<Seq<char>> {
    if i == 40 {
        Some(FIRST_REVISION@)
    } else if i == 41 {
        Some(FIRST_FINGERPRINT@)
    } else {
        None
    }
}

fn name_of_relation(i: usize) -> (r: &'static str)
    ensures
        r@ == relation_name(i as int),
{
    if i == 0 {
        "state_observation"
    } else if i == 1 {
        "state_observation_metadata"
    } else if i == 2 {
        "garbage_collection_state"
    } else if i == 3 {
        "analysis_verification_fingerprint"
    } else if i == 4 {
        "state_entity"
    } else if i == 5 {
        "state_grpc_binding_candidate"
    } else if i == 6 {
        "analysis_revision_observation"
    } else if i == 7 {
        "analysis_revision_entity"
    } else if i == 8 {
        "analysis_revision_grpc_diagnostic"
    } else if i == 9 {
        "analysis_revision_metadata"
    } else if i == 10 {
        "analysis_revision_diagnostic"
    } else if i == 11 {
        "analysis_revision_enrichment"
    } else if i == 12 {
        "analysis_revision_input"
    } else if i == 13 {
        "analysis_revision_context"
    } else if i == 14 {
        "analysis_revision_enrichment_input"
    } else if i == 15 {
        "analysis_revision_repository_enrichment"
    } else if i == 16 {
        "analysis_revision_enrichment_override_owner"
    } else if i == 17 {
        "analysis_revision_enrichment_diagnostic_owner"
    } else if i == 18 {
        "analysis_revision_enrichment_entity_owner"
    } else if i == 19 {
        "analysis_revision_enrichment_observation_owner"
    } else if i == 20 {
        "enrichment_output"
    } else if i == 21 {
        "enrichment_entity_contribution"
    } else if i == 22 {
        "enrichment_observation_contribution"
    } else if i == 23 {
        "enrichment_override_contribution"
    } else if i == 24 {
        "enrichment_diagnostic_contribution"
    } else if i == 25 {
        "analysis_baseline_entity"
    } else if i == 26 {
        "analysis_baseline_observation"
    } else if i == 27 {
        "analysis_baseline_dependency_override"
    } else if i == 28 {
        "analysis_baseline_diagnostic"
    } else if i == 29 {
        "analysis_fact_shard_selection"
    } else if i == 30 {
        "analysis_fact_shard_entity"
    } else if i == 31 {
        "analysis_fact_shard_observation"
    } else if i == 32 {
        "analysis_fact_shard_dependency_observation"
    } else if i == 33 {
        "analysis_baseline_fingerprint"
    } else if i == 34 {
        "schema_migration"
    } else if i == 35 {
        "repository_revision"
    } else if i == 36 {
        "repository_revision_diagnostic"
    } else if i == 37 {
        "state_dependency_observation"
    } else if i == 38 {
        "analysis_revision_dependency_override_metadata"
    } else if i == 39 {
        "analysis_revision_dependency_override"
    } else if i == 40 {
        "analysis_revision"
    } else if i == 41 {
        "analysis_fingerprint"
    } else if i == 42 {
        "repository_state"
    } else if i == 43 {
        "analysis_revision_state"
    } else {
        "analysis_revision_repository_head"
    }
}

fn script_of_relation(i: usize) -> (r: &'static str)
    ensures
        r@ == relation_script(i as int),
{
    if i == 0 {
        CREATE_SCHEMA
    } else if i == 1 {
        CREATE_METADATA_SCHEMA
    } else if i == 2 {
        CREATE_GARBAGE_COLLECTION_STATE_SCHEMA
    } else if i == 3 {
        CREATE_VERIFICATION_FINGERPRINT_SCHEMA
    } else if i == 4 {
        CREATE_ENTITY_SCHEMA
    } else if i == 5 {
        CREATE_GRPC_BINDING_SCHEMA
    } else if i == 6 {
        CREATE_REVISION_OBSERVATION_SCHEMA
    } else if i == 7 {
        CREATE_REVISION_ENTITY_SCHEMA
    } else if i == 8 {
        CREATE_GRPC_DIAGNOSTIC_SCHEMA
    } else if i == 9 {
        CREATE_ANALYSIS_METADATA_SCHEMA
    } else if i == 10 {
        CREATE_ANALYSIS_DIAGNOSTIC_SCHEMA
    } else if i == 11 {
        CREATE_ENRICHMENT_SCHEMA
    } else if i == 12 {
        CREATE_REVISION_INPUT_SCHEMA
    } else if i == 13 {
        CREATE_REVISION_CONTEXT_SCHEMA
    } else if i == 14 {
        CREATE_ENRICHMENT_INPUT_SCHEMA
    } else if i == 15 {
        CREATE_REPOSITORY_ENRICHMENT_SCHEMA
    } else if i == 16 {
        CREATE_ENRICHMENT_OVERRIDE_OWNER_SCHEMA
    } else if i == 17 {
        CREATE_ENRICHMENT_DIAGNOSTIC_OWNER_SCHEMA
    } else if i == 18 {
        CREATE_ENRICHMENT_ENTITY_OWNER_SCHEMA
    } else if i == 19 {
        CREATE_ENRICHMENT_OBSERVATION_OWNER_SCHEMA
    } else if i == 20 {
        CREATE_ENRICHMENT_OUTPUT_SCHEMA
    } else if i == 21 {
        CREATE_ENRICHMENT_ENTITY_CONTRIBUTION_SCHEMA
    } else if i == 22 {
        CREATE_ENRICHMENT_OBSERVATION_CONTRIBUTION_SCHEMA
    } else if i == 23 {
        CREATE_ENRICHMENT_OVERRIDE_CONTRIBUTION_SCHEMA
    } else if i == 24 {
        CREATE_ENRICHMENT_DIAGNOSTIC_CONTRIBUTION_SCHEMA
    } else if i == 25 {
        CREATE_BASELINE_ENTITY_SCHEMA
    } else if i == 26 {
        CREATE_BASELINE_OBSERVATION_SCHEMA
    } else if i == 27 {
        CREATE_BASELINE_OVERRIDE_SCHEMA
    } else if i == 28 {
        CREATE_BASELINE_DIAGNOSTIC_SCHEMA
    } else if i == 29 {
        CREATE_FACT_SHARD_SELECTION_SCHEMA
    } else if i == 30 {
        CREATE_FACT_SHARD_ENTITY_SCHEMA
    } else if i == 31 {
        CREATE_FACT_SHARD_OBSERVATION_SCHEMA
    } else if i == 32 {
        CREATE_FACT_SHARD_DEPENDENCY_SCHEMA
    } else if i == 33 {
        CREATE_BASELINE_FINGERPRINT_SCHEMA
    } else if i == 34 {
        CREATE_SCHEMA_MIGRATION_SCHEMA
    } else if i == 35 {
        CREATE_REPOSITORY_REVISION_SCHEMA
    } else if i == 36 {
        CREATE_REPOSITORY_REVISION_DIAGNOSTIC_SCHEMA
    } else if i == 37 {
        CREATE_DEPENDENCY_SCHEMA
    } else if i == 38 {
        CREATE_OVERRIDE_METADATA_SCHEMA
    } else if i == 39 {
        CREATE_OVERRIDE_SCHEMA
    } else if i == 40 {
        CREATE_REVISION_SCHEMA
    } else if i == 41 {
        CREATE_FINGERPRINT_SCHEMA
    } else if i == 42 {
        CREATE_REPOSITORY_STATE_SCHEMA
    } else if i == 43 {
        CREATE_REVISION_STATE_SCHEMA
    } else {
        CREATE_REPOSITORY_HEAD_SCHEMA
    }
}

/// What creates a relation.
pub open spec fn relation_created(i: int) -> Seq<CommandModel> {
    match relation_seed(i) {
        Some(seed) => seq![plain(relation_script(i)), plain(seed)],
        None => seq![plain(relation_script(i))],
    }
}

/// What creates a relation unless it is there.
pub open spec fn relation_ensured(rows: Seq<Vec<InspectionValue>>, i: int) -> Seq<CommandModel> {
    if has_relation(rows, relation_name(i)) {
        Seq::empty()
    } else {
        relation_created(i)
    }
}

/// What creates the relations that are not there.
pub open spec fn relations_ensured(rows: Seq<Vec<InspectionValue>>) -> Seq<CommandModel> {
    concat_range(RELATIONS as int, |i: int| relation_ensured(rows, i))
}

/// Creates the relations that are not there. A database that is not to be set up is left as it is.
pub fn create_relations(relations: &InspectionResult, initialize: bool) -> (r: Vec<Command>)
    ensures
        command_models(r@) == (if initialize {
            relations_ensured(relations.rows@)
        } else {
            Seq::empty()
        }),
{
    let ghost piece = |i: int| relation_ensured(relations.rows@, i);
    let mut commands: Vec<Command> = Vec::new();
    assert(command_models(commands@) =~= Seq::empty());
    if !initialize {
        return commands;
    }
    let mut i: usize = 0;
    while i < RELATIONS
        invariant
            i <= RELATIONS,
            piece == (|i: int| relation_ensured(relations.rows@, i)),
            command_models(commands@) == concat_range(i as int, piece),
        decreases RELATIONS - i,
    {
        let ghost before = commands@;
        if !is_there(&relations.rows, name_of_relation(i)) {
            commands.push(plain_command(script_of_relation(i)));
            if i == 40 {
                commands.push(plain_command(FIRST_REVISION));
            } else if i == 41 {
                commands.push(plain_command(FIRST_FINGERPRINT));
            }
        }
        assert(command_models(commands@) =~= command_models(before) + piece(i as int));
        i = i + 1;
    }
    commands
}

/// The indexes of a database.
pub open spec fn index_name(i: int) -> Seq<char> {
    if i == 0 {
        "state_observation:by_to"@
    } else if i == 1 {
        "state_observation_metadata:by_to"@
    } else {
        "analysis_revision_observation:by_to"@
    }
}

/// The scripts that create the indexes.
pub open spec fn index_script(i: int) -> Seq<char> {
    if i == 0 {
        CREATE_OBSERVATION_TO_INDEX@
    } else if i == 1 {
        CREATE_METADATA_TO_INDEX@
    } else {
        CREATE_REVISION_OBSERVATION_TO_INDEX@
    }
}

fn name_of_index(i: usize) -> (r: &'static str)
    ensures
        r@ == index_name(i as int),
{
    if i == 0 {
        "state_observation:by_to"
    } else if i == 1 {
        "state_observation_metadata:by_to"
    } else {
        "analysis_revision_observation:by_to"
    }
}

fn script_of_index(i: usize) -> (r: &'static str)
    ensures
        r@ == index_script(i as int),
{
    if i == 0 {
        CREATE_OBSERVATION_TO_INDEX
    } else if i == 1 {
        CREATE_METADATA_TO_INDEX
    } else {
        CREATE_REVISION_OBSERVATION_TO_INDEX
    }
}

/// What creates an index unless it is there.
pub open spec fn index_ensured(rows: Seq<Vec<InspectionValue>>, i: int) -> Seq<CommandModel> {
    if has_relation(rows, index_name(i)) {
        Seq::empty()
    } else {
        seq![plain(index_script(i))]
    }
}

/// How many indexes a database has.
pub const INDEXES: usize = 3;

/// Creates the indexes that are not there.
pub fn create_indexes(relations: &InspectionResult) -> (r: Vec<Command>)
    ensures
        command_models(r@) == concat_range(INDEXES as int, |i: int| index_ensured(relations.rows@, i)),
{
    let ghost piece = |i: int| index_ensured(relations.rows@, i);
    let mut commands: Vec<Command> = Vec::new();
    let mut i: usize = 0;
    assert(command_models(commands@) =~= Seq::empty());
    while i < INDEXES
        invariant
            i <= INDEXES,
            piece == (|i: int| index_ensured(relations.rows@, i)),
            command_models(commands@) == concat_range(i as int, piece),
        decreases INDEXES - i,
    {
        let ghost before = commands@;
        if !is_there(&relations.rows, name_of_index(i)) {
            commands.push(plain_command(script_of_index(i)));
        }
        assert(command_models(commands@) =~= command_models(before) + piece(i as int));
        i = i + 1;
    }
    commands
}

/// What creates a database that does not exist.
pub fn create_database(exists: bool) -> (r: Vec<Command>)
    ensures
        command_models(r@) == (if exists {
            Seq::empty()
        } else {
            seq![plain(CREATE_SCHEMA@)]
        }),
{
    let mut commands: Vec<Command> = Vec::new();
    if !exists {
        commands.push(plain_command(CREATE_SCHEMA));
    }
    assert(command_models(commands@) =~= if exists {
        Seq::empty()
    } else {
        seq![plain(CREATE_SCHEMA@)]
    });
    commands
}

/// A step that brings data up to date, once.
#[derive(Clone, Copy, PartialEq, Eq, Structural, Debug)]
pub enum Migration {
    Ownership,
    Baseline,
}

/// The name of a migration.
pub open spec fn migration_text(migration: Migration) -> Seq<char> {
    match migration {
        Migration::Ownership => "enrichment-ownership"@,
        Migration::Baseline => "enrichment-baseline"@,
    }
}

/// The question whether a migration was applied.
pub open spec fn migration_asked(migration: Migration) -> CommandModel {
    CommandModel {
        script: MIGRATION_APPLIED@,
        arguments: seq![
            ("name"@, ArgumentModel::One(CellModel::Text(migration_text(migration)))),
            ("version"@, ArgumentModel::One(CellModel::Integer(1))),
        ],
    }
}

/// Asks whether a migration was applied.
pub fn ask_migration(migration: Migration) -> (r: Command)
    ensures
        r@ == migration_asked(migration),
{
    let name: &str = match migration {
        Migration::Ownership => "enrichment-ownership",
        Migration::Baseline => "enrichment-baseline",
    };
    let mut arguments: Vec<Binding> = Vec::new();
    arguments.push(bind_text("name", name));
    arguments.push(bind_integer("version", 1));
    let command: Command = Command { script: MIGRATION_APPLIED.to_owned(), arguments };
    assert(command@.arguments =~= migration_asked(migration).arguments);
    command
}

/// What a migration runs. It ends with the note that it was applied, so that a migration that was
/// interrupted is applied again.
pub open spec fn migrated(migration: Migration) -> Seq<CommandModel> {
    match migration {
        Migration::Ownership => seq![
            plain(OWNED_OUTPUTS@),
            plain(OWNED_ENTITIES@),
            plain(OWNED_OBSERVATIONS@),
            plain(OWNED_OVERRIDES@),
            plain(OWNED_DIAGNOSTICS@),
            plain(OWNERSHIP_MIGRATED@),
        ],
        Migration::Baseline => seq![
            plain(BASED_STATE_ENTITIES@),
            plain(BASED_STATE_OBSERVATIONS@),
            plain(BASED_ENTITIES@),
            plain(BASED_OBSERVATIONS@),
            plain(BASED_STATE_ENTITIES@),
            plain(BASED_STATE_OBSERVATIONS@),
            plain(BASED_OVERRIDES@),
            plain(BASED_DIAGNOSTICS@),
            plain(BASELINE_MIGRATED@),
        ],
    }
}

/// Tells what is to be run in one transaction for a migration, unless it was applied.
pub fn run_migration(migration: Migration, applied: &InspectionResult) -> (r: Vec<Command>)
    ensures
        command_models(r@) == (if applied.rows@.len() > 0 {
            Seq::empty()
        } else {
            migrated(migration)
        }),
{
    let mut commands: Vec<Command> = Vec::new();
    assert(command_models(commands@) =~= Seq::empty());
    if applied.rows.len() > 0 {
        return commands;
    }
    match migration {
        Migration::Ownership => {
            commands.push(plain_command(OWNED_OUTPUTS));
            commands.push(plain_command(OWNED_ENTITIES));
            commands.push(plain_command(OWNED_OBSERVATIONS));
            commands.push(plain_command(OWNED_OVERRIDES));
            commands.push(plain_command(OWNED_DIAGNOSTICS));
            commands.push(plain_command(OWNERSHIP_MIGRATED));
        },
        Migration::Baseline => {
            commands.push(plain_command(BASED_STATE_ENTITIES));
            commands.push(plain_command(BASED_STATE_OBSERVATIONS));
            commands.push(plain_command(BASED_ENTITIES));
            commands.push(plain_command(BASED_OBSERVATIONS));
            commands.push(plain_command(BASED_STATE_ENTITIES));
            commands.push(plain_command(BASED_STATE_OBSERVATIONS));
            commands.push(plain_command(BASED_OVERRIDES));
            commands.push(plain_command(BASED_DIAGNOSTICS));
            commands.push(plain_command(BASELINE_MIGRATED));
        },
    }
    assert(command_models(commands@) =~= migrated(migration));
    commands
}

/// Setting a database up again creates nothing that is there.
pub proof fn relations_are_created_once(rows: Seq<Vec<InspectionValue>>)
    requires
        forall|i: int| 0 <= i < RELATIONS ==> has_relation(rows, #[trigger] relation_name(i)),
    ensures
        relations_ensured(rows).len() == 0,
{
    nothing_left(rows, RELATIONS as int);
}

proof fn nothing_left(rows: Seq<Vec<InspectionValue>>, n: int)
    requires
        0 <= n <= RELATIONS,
        forall|i: int| 0 <= i < RELATIONS ==> has_relation(rows, #[trigger] relation_name(i)),
    ensures
        concat_range(n, |i: int| relation_ensured(rows, i)).len() == 0,
    decreases n,
{
    if n > 0 {
        nothing_left(rows, n - 1);
        assert(has_relation(rows, relation_name(n - 1)));
    }
}

/// How far setting a database up is.
#[derive(Clone, Copy, PartialEq, Eq, Structural, Debug)]
pub enum SetupStage {
    /// The relations that are there are to be asked for.
    Relations,
    /// The indexes that are there are to be asked for.
    Indexes,
    /// Whether a migration was applied is to be asked.
    Migrating(Migration),
    /// All is done.
    Done,
}

/// Setting a database up. It is known then whether it has a relation that is not used any more.
#[derive(Clone, Copy, PartialEq, Eq, Structural, Debug)]
pub struct Setup {
    pub stage: SetupStage,
    pub initialize: bool,
    pub has_jobs: bool,
}

/// What is to be asked next.
pub open spec fn setup_asked(stage: SetupStage) -> Option<CommandModel> {
    match stage {
        SetupStage::Relations => Some(plain("::relations"@)),
        SetupStage::Indexes => Some(plain("::relations"@)),
        SetupStage::Migrating(migration) => Some(migration_asked(migration)),
        SetupStage::Done => None,
    }
}

/// How far setting up is after an answer, and what is to be run then, for a migration in one
/// transaction.
pub open spec fn setup_after(setup: Setup, rows: Seq<Vec<InspectionValue>>) -> (Setup, Seq<CommandModel>) {
    match setup.stage {
        SetupStage::Relations => if setup.initialize {
            (
                Setup { stage: SetupStage::Indexes, has_jobs: has_relation(rows, "enrichment_job"@), ..setup },
                relations_ensured(rows),
            )
        } else {
            (Setup { stage: SetupStage::Done, ..setup }, Seq::empty())
        },
        SetupStage::Indexes => (
            Setup { stage: SetupStage::Migrating(Migration::Ownership), ..setup },
            concat_range(INDEXES as int, |i: int| index_ensured(rows, i)),
        ),
        SetupStage::Migrating(migration) => (
            Setup {
                stage: match migration {
                    Migration::Ownership => SetupStage::Migrating(Migration::Baseline),
                    Migration::Baseline => SetupStage::Done,
                },
                ..setup
            },
            if rows.len() > 0 {
                Seq::empty()
            } else {
                migrated(migration)
            },
        ),
        SetupStage::Done => (setup, Seq::empty()),
    }
}

impl Setup {
    /// Begins with a database on disk.
    pub fn on_disk(initialize: bool) -> (r: Setup)
        ensures
            r == (Setup { stage: SetupStage::Relations, initialize, has_jobs: false }),
    {
        Setup { stage: SetupStage::Relations, initialize, has_jobs: false }
    }

    /// Goes on with a database in memory, after it was created.
    pub fn after_memory() -> (r: Setup)
        ensures
            r == (Setup { stage: SetupStage::Migrating(Migration::Ownership), initialize: true, has_jobs: false }),
    {
        Setup { stage: SetupStage::Migrating(Migration::Ownership), initialize: true, has_jobs: false }
    }

    /// Tells what is to be asked next; without a question all is done.
    pub fn question(&self) -> (r: Option<Command>)
        ensures
            r is Some <==> setup_asked(self.stage) is Some,
            r is Some ==> r->0@ == setup_asked(self.stage)->0,
    {
        match self.stage {
            SetupStage::Relations => Some(ask_relations()),
            SetupStage::Indexes => Some(ask_relations()),
            SetupStage::Migrating(migration) => Some(ask_migration(migration)),
            SetupStage::Done => None,
        }
    }

    /// Takes in the answer, and tells what is to be run now.
    pub fn receive(&mut self, answer: &InspectionResult) -> (r: Vec<Command>)
        ensures
            *final(self) == setup_after(*old(self), answer.rows@).0,
            command_models(r@) == setup_after(*old(self), answer.rows@).1,
    {
        match self.stage {
            SetupStage::Relations => {
                if self.initialize {
                    self.has_jobs = is_there(&answer.rows, "enrichment_job");
                    self.stage = SetupStage::Indexes;
                } else {
                    self.stage = SetupStage::Done;
                }
                create_relations(answer, self.initialize)
            },
            SetupStage::Indexes => {
                self.stage = SetupStage::Migrating(Migration::Ownership);
                create_indexes(answer)
            },
            SetupStage::Migrating(migration) => {
                self.stage =
                match migration {
                    Migration::Ownership => SetupStage::Migrating(Migration::Baseline),
                    Migration::Baseline => SetupStage::Done,
                };
                run_migration(migration, answer)
            },
            SetupStage::Done => {
                let none: Vec<Command> = Vec::new();
                assert(command_models(none@) =~= Seq::empty());
                none
            },
        }
    }

    /// Removes the relation that is not used any more, if it is there.
    pub fn remove_jobs(&self) -> (r: Option<Command>)
        ensures
            r is Some <==> self.has_jobs,
            r is Some ==> r->0@ == plain("::remove enrichment_job"@),
    {
        if self.has_jobs {
            Some(plain_command("::remove enrichment_job"))
        } else {
            None
        }
    }
}

} // verus!
