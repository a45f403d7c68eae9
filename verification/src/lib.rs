#![allow(non_snake_case)]
#![allow(non_camel_case_types)]

pub mod reporting;
pub mod token;
pub mod text;
pub mod source;
pub mod table;
pub mod scan_spec;
pub mod lexer;
pub mod numparse;
pub mod ast;
pub mod decimal;
pub mod parse_spec;
pub mod parser;
pub mod stats;
pub mod display;
pub mod parse_laws;
pub mod laws;
pub mod language_laws;
