//! The payload a client library sends for every dumped variable.

use vstd::prelude::*;

verus! {

/// The variable that was dumped.
#[derive(Debug, PartialEq, Eq, Default)]
pub struct QuoPayloadVariable {
    pub var_type: String,
    pub name: String,
    pub value: String,
    pub is_mutable: bool,
    pub is_constant: bool,
    pub is_expression: bool,
    pub memory_address: Option<String>,
    pub grouping_hash: Option<String>,
}

impl Clone for QuoPayloadVariable {
    fn clone(&self) -> (r: Self)
        ensures
            r == *self,
    {
        QuoPayloadVariable {
            var_type: self.var_type.clone(),
            name: self.name.clone(),
            value: self.value.clone(),
            is_mutable: self.is_mutable,
            is_constant: self.is_constant,
            is_expression: self.is_expression,
            memory_address: self.memory_address.clone(),
            grouping_hash: self.grouping_hash.clone(),
        }
    }
}

/// Where and when a variable was dumped.
///
/// `cpu_usage_bits` holds the bit pattern of the sender's CPU usage (an
/// `f32`), which this crate only carries along.
#[derive(Debug, Clone, PartialEq, Eq, Default)]
pub struct IncomingQuoPayloadMeta {
    pub id: u32,
    pub uid: String,
    pub origin: String,
    pub sender_origin: String,
    pub time_epoch_ms: i64,
    pub variable: QuoPayloadVariable,
    pub stack_trace: Option<Vec<String>>,
    pub thread_info: Option<String>,
    pub runtime: Option<String>,
    pub cpu_usage_bits: Option<u32>,
    pub memory_usage: Option<u64>,
    pub caller_function: Option<String>,
}

/// The language of the program that sent a payload.
#[derive(Debug, PartialEq, Eq, Default, Clone, Copy)]
pub enum QuoPayloadLanguage {
    Rust,
    Php,
    Python,
    Javascript,
    Typescript,
    Ruby,
    Go,
    #[default]
    Unknown,
}

/// One dump: its metadata and the sender's language.
#[derive(Debug, Clone, PartialEq, Eq, Default)]
pub struct IncomingQuoPayload {
    pub meta: IncomingQuoPayloadMeta,
    pub language: QuoPayloadLanguage,
}

} // verus!
