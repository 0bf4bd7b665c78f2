pub mod decode;
pub mod descriptor;
pub mod json;
pub mod laws;
pub mod parse;
pub mod value;
pub mod wire;

use vstd::prelude::*;

verus! {

use crate::decode::{DecodeConfig, decode_fields, sp_decode_fields};
use crate::descriptor::{DescriptorRegistry, sp_find_msg, SpecRegistry};
use crate::json::{JsonValue, SpecJson, project_msg, sp_project_msg};
use crate::parse::{load_registry, sp_load_registry};
use crate::value::{DecodedValue, SpecValue, deep_entries};

/// Error taxonomy for descriptor loading and message decoding.
#[derive(Clone, Copy, Debug, PartialEq, Eq, Structural)]
pub enum DecodeError {
    TruncatedInput,
    InvalidVarint,
    UnsupportedWireType,
    DescriptorParseError,
    UnknownType,
    RecursionLimitExceeded,
}

/// How deep nested messages may go before decoding fails.
pub const DEFAULT_RECURSION_LIMIT: u32 = 100;

/// The JSON value decoded from `input` against the message type called
/// `name`: look the type up, decode the wire bytes, project the result.
pub open spec fn sp_to_json(reg: SpecRegistry, name: Seq<u8>, input: Seq<u8>, depth: nat, cfg: DecodeConfig) -> Result<SpecJson, DecodeError> {
    match sp_find_msg(reg, name, 0) {
        None => Err(DecodeError::UnknownType),
        Some(desc) => match sp_decode_fields(
            reg, input, 0, input.len() as int, desc, depth, cfg, Seq::empty(),
        ) {
            Err(e) => Err(e),
            Ok(entries) => sp_project_msg(reg, desc, entries, cfg),
        },
    }
}

/// A schema-driven decoder: holds the descriptor registry once loaded,
/// then turns wire-format messages into JSON values, any number of times.
pub struct ProtobufToJson {
    pub registry: DescriptorRegistry,
    pub config: DecodeConfig,
    pub depth_limit: u32,
}

impl ProtobufToJson {
    /// Builds a decoder from descriptor-set bytes, with the default
    /// configuration: 64-bit integers render as strings, enums as names,
    /// unknown fields are discarded.
    pub fn new(descriptor_bytes: &Vec<u8>) -> (r: Result<ProtobufToJson, DecodeError>)
        ensures
            match r {
                Ok(f) => sp_load_registry(descriptor_bytes@) == Ok::<SpecRegistry, DecodeError>(f.registry@)
                    && f.config == (DecodeConfig {
                        use_enum_numbers: false,
                        preserve_unknown_fields: false,
                        int64_as_string: true,
                    }) && f.depth_limit == DEFAULT_RECURSION_LIMIT,
                Err(e) => sp_load_registry(descriptor_bytes@) == Err::<SpecRegistry, DecodeError>(e)
                    && e == DecodeError::DescriptorParseError,
            },
    {
        Self::with_config(
            descriptor_bytes,
            DecodeConfig {
                use_enum_numbers: false,
                preserve_unknown_fields: false,
                int64_as_string: true,
            },
            DEFAULT_RECURSION_LIMIT,
        )
    }

    /// Builds a decoder from descriptor-set bytes with explicit options
    /// and recursion limit.
    pub fn with_config(descriptor_bytes: &Vec<u8>, config: DecodeConfig, depth_limit: u32) -> (r: Result<ProtobufToJson, DecodeError>)
        ensures
            match r {
                Ok(f) => sp_load_registry(descriptor_bytes@) == Ok::<SpecRegistry, DecodeError>(f.registry@)
                    && f.config == config && f.depth_limit == depth_limit,
                Err(e) => sp_load_registry(descriptor_bytes@) == Err::<SpecRegistry, DecodeError>(e)
                    && e == DecodeError::DescriptorParseError,
            },
    {
        match load_registry(descriptor_bytes) {
            Ok(registry) => Ok(ProtobufToJson { registry, config, depth_limit }),
            Err(e) => Err(e),
        }
    }

    /// Decodes one wire-format message of the type called `message_type`
    /// (a fully-qualified dotted name with a leading dot) into a JSON
    /// value. A failure never poisons the registry: the decoder stays
    /// usable for further calls.
    pub fn to_json(&self, message_type: &Vec<u8>, input: &Vec<u8>) -> (r: Result<JsonValue, DecodeError>)
        ensures
            match r {
                Ok(j) => sp_to_json(
                    self.registry@, message_type@, input@, self.depth_limit as nat, self.config,
                ) == Ok::<SpecJson, DecodeError>(j@),
                Err(e) => sp_to_json(
                    self.registry@, message_type@, input@, self.depth_limit as nat, self.config,
                ) == Err::<SpecJson, DecodeError>(e),
            },
    {
        match self.registry.lookup_message(message_type) {
            None => Err(DecodeError::UnknownType),
            Some(mi) => {
                let empty: Vec<(u64, DecodedValue)> = Vec::new();
                proof {
                    assert(deep_entries(empty@) =~= Seq::<(u64, SpecValue)>::empty());
                }
                match decode_fields(
                    &self.registry,
                    input,
                    0,
                    input.len(),
                    &self.registry.messages[mi],
                    self.depth_limit,
                    self.config,
                    empty,
                ) {
                    Err(e) => Err(e),
                    Ok(entries) => project_msg(
                        &self.registry,
                        &self.registry.messages[mi],
                        &entries,
                        self.config,
                    ),
                }
            },
        }
    }
}

} // verus!
