//! Signal definitions and the database that holds them.

pub mod arxml;
pub mod autosar;
pub mod database;
pub mod dbc;
pub mod dbc_source;

pub use database::{
    ByteOrder, ContainedPduInfo, ContainerDefinition, ContainerLayout, DatabaseStats,
    MessageDefinition, MultiplexerInfo, SignalDatabase, SignalDefinition, ValueType,
};
