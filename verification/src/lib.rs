use vstd::prelude::*;

pub mod text;
pub mod proto;
pub mod schema;
pub mod types;
pub mod dn;
pub mod utils;
pub mod images;
pub mod kerberos;
pub mod scope;
pub mod schema_manager;
pub mod deserialize;
pub mod filters;
pub mod compare;
pub mod modify;
pub mod search;
pub mod create;
pub mod subschema;
pub mod root_dse;
pub mod ordered;
pub mod attributes;
pub mod results;
pub mod storage;
pub mod keycloak;
pub mod graphql;
pub mod handler;
pub mod sql_tables;
pub mod graphql_schema;
pub mod graphql_query;
pub mod graphql_mutation;
pub mod mutations;
pub mod group_query;
pub mod user_query;
pub mod filter_laws;
pub mod user_creation;
