//! Verified core of a semantic code graph.

pub mod acquisition;
pub mod baseline;
pub mod benchmark;
pub mod changes;
pub mod closure;
pub mod collection;
pub mod command;
pub mod context;
pub mod contribution;
pub mod database;
pub mod dependency;
pub mod digest;
pub mod domain;
pub mod dto;
pub mod enrichment;
pub mod evidence;
pub mod facts;
pub mod filtered;
pub mod fingerprints;
pub mod framing;
pub mod git;
pub mod graph;
pub mod graphql;
pub mod grpc;
pub mod ids;
pub mod manifest;
pub mod metadata;
pub mod multipath;
pub mod normal;
pub mod observe;
pub mod paths;
pub mod publication;
pub mod query;
pub mod reachability;
pub mod reconciliation;
pub mod records;
pub mod requests;
pub mod revisions;
pub mod rows;
pub mod schema;
pub mod scripts;
pub mod semantic;
pub mod semantics;
pub mod seqs;
pub mod shards;
pub mod shown;
pub mod sorted;
pub mod step;
pub mod text;
pub mod traversal;
pub mod write_scripts;
pub mod writes;
