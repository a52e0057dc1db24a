//! A small relational database: typed values and rows, queries over named
//! tables, ordered in-memory trees with transactions, and a translator from
//! SQL to engine queries.
pub mod operators;
pub mod order;
pub mod ordered_map;
pub mod access_control;
pub mod assignment_laws;
pub mod backend_contract;
pub mod call_laws;
pub mod catalog;
pub mod catalog_laws;
pub mod change_event;
pub mod change_laws;
pub mod codec;
pub mod codec_laws;
pub mod columns;
pub mod condition_laws;
pub mod consistency;
pub mod database_laws;
pub mod definition_laws;
pub mod document_laws;
pub mod documents;
pub mod engine;
pub mod error;
pub mod executor;
pub mod facade;
pub mod float;
pub mod grouping_laws;
pub mod hiding_laws;
pub mod in_memory;
pub mod integrity_laws;
pub mod join_builder;
pub mod join_laws;
pub mod json_laws;
pub mod json_ops;
pub mod matching_laws;
pub mod message_laws;
pub mod model_laws;
pub mod name_table;
pub mod patch;
pub mod persistence;
pub mod plain;
pub mod plan;
pub mod planner;
pub mod predicate;
pub mod projection;
pub mod query;
pub mod read_laws;
pub mod readback_laws;
pub mod reading_laws;
pub mod refusal_laws;
pub mod render;
pub mod result_laws;
pub mod row_deserialize_error;
pub mod row_deserializer;
pub mod scan_laws;
pub mod schema;
pub mod schema_laws;
pub mod session_laws;
pub mod schema_resolver;
pub mod scope_laws;
pub mod select_orchestrator;
pub mod select_pipeline;
pub mod selection_laws;
pub mod sorting;
pub mod sql;
pub mod store;
pub mod store_facade;
pub mod store_helpers;
pub mod subscription_laws;
pub mod subscriptions;
pub mod table_laws;
pub mod text;
pub mod tidings_laws;
pub mod transaction_laws;
pub mod transaction_lifecycle;
pub mod update_expr;
pub mod value;
pub mod value_laws;
