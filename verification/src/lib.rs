//! Verified core of an OpenAPI to TypeScript code generator.
pub mod text;
pub mod formatter;
pub mod value;
pub mod ir;
pub mod openapi;
pub mod resolver;
pub mod refs;
pub mod parser;
pub mod external;
pub mod convert;
pub mod swagger2;
pub mod migrate;
pub mod generate;
pub mod options;
pub mod output;
