//! Analysis of structural schemas (the OpenAPI v3 subset that validates Kubernetes custom
//! resources) into named record types and their typed members.
pub mod analyzer;
pub mod laws;
pub mod model;
pub mod scalar;
pub mod schema;
pub mod text;
