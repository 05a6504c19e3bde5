pub mod binding;
pub mod rules;
pub mod schema;
pub mod input;
pub mod compile;
pub mod template;
pub mod bootstrap;
pub mod snapshot;
pub mod run;
