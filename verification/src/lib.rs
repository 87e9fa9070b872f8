//! A verified core for a code index: chunking, search, bundling, history and the
//! rules that a model-context server around a workspace index follows.

pub mod text;
pub mod pieces;
pub mod decimal;
pub mod sizes;
pub mod chunk;
pub mod score;
pub mod json;
pub mod bundle;
pub mod bundle_budget;
pub mod ranking;
pub mod bundle_snippets;
pub mod spans;
pub mod regexes;
pub mod bundle_graph;
pub mod bundle_build;
pub mod search;
pub mod search_query;
pub mod search_text;
pub mod search_lexical;
pub mod search_results;
pub mod search_run;
pub mod order;
pub mod paths;
pub mod digest;
pub mod globs;
pub mod ann;
pub mod embedding;
pub mod graph;
pub mod graph_source;
pub mod graph_script;
pub mod ingest;
pub mod ingest_plan;
pub mod git_timeline;
pub mod git_remote;
pub mod git_log;
pub mod git_entries;
pub mod index_status;
pub mod environment;
pub mod graph_neighbors;
pub mod doubles;
pub mod service_state;
pub mod service_plan;
pub mod service_suggest;
pub mod service_summaries;
pub mod service_errors;
pub mod instructions;
pub mod remote_proxy;
pub mod watcher;
pub mod settings;
pub mod lookup;
pub mod snapshot;
pub mod line_server;
pub mod scan;
pub mod debug_report;
