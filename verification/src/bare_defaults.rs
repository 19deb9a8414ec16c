//! Custom defaults for bare nodes: a field given by a node name alone (no
//! argument) takes a default instead of failing.
pub mod bool;
