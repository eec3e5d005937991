pub mod janusql_parser;
pub mod parsed_rspql_query;
pub mod rspql_parser;
pub mod sparql_parser;
pub mod tokens;
