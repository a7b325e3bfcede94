pub mod scope;
pub mod types;
pub mod function;
pub mod helpers;
pub mod literal;
pub mod node_data;
pub mod switch;
