//! From SQL text to engine queries.
pub mod change_laws;
pub mod condition_laws;
pub mod convert;
pub mod ddl;
pub mod dml;
pub mod engine_adapter;
pub mod error;
pub mod having;
pub mod helpers;
pub mod ir;
pub mod mapper;
pub mod name_laws;
pub mod name_map;
pub mod params;
pub mod scope;
pub mod select;
pub mod select_laws;
pub mod select_list;
pub mod statement_laws;
pub mod syntax;
pub mod tokens;
pub mod translate;
pub mod translator;
pub mod unsupported_laws;
