pub mod adapter;
pub mod analysis;
pub mod agents;
pub mod cargo_test;
pub mod cargo_topology;
pub mod collectors;
pub mod contract;
pub mod delta;
pub mod deps_graph;
pub mod discovery;
pub mod environment_plan;
pub mod evidence;
pub mod git_changes;
pub mod globs;
pub mod host;
pub mod impact;
pub mod impact_run;
pub mod install;
pub mod operations;
pub mod order;
pub mod paths;
pub mod planning;
pub mod preparation;
pub mod provenance;
pub mod reconcile;
pub mod resolution;
pub mod scheduler;
pub mod selection;
pub mod signals;
pub mod storage;
pub mod text;
pub mod toolchain;
pub mod versions;
pub mod vocabulary;
