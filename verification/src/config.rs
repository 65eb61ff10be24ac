//! Declared per-module configuration values: a key, a help text, a validator
//! that every write must pass, and an optional default written at guild
//! bootstrap. Absence of a value is a valid state of its own, distinct from
//! "set to empty": reads treat it as missing, never as a silent default.
use vstd::prelude::*;
use crate::text::{spec_parse_u64, parse_u64, str_eq};

verus! {

/// The validators a module can declare for a config value.
#[derive(Debug, Clone, Copy, PartialEq, Eq, Structural)]
pub enum Validator {
    /// Accepts any string.
    Any,
    /// Accepts strings that parse as a decimal `u64`.
    UnsignedInt,
    /// Accepts exactly "true" and "false".
    Boolean,
}

/// Whether `s` passes `v`.
pub open spec fn spec_validates(v: Validator, s: Seq<char>) -> bool {
    match v {
        Validator::Any => true,
        Validator::UnsignedInt => spec_parse_u64(s) is Some,
        Validator::Boolean => s == "true"@ || s == "false"@,
    }
}

/// Runs a validator over a candidate value.
pub fn validate(v: &Validator, s: &str) -> (r: bool)
    ensures
        r == spec_validates(*v, s@),
{
    match v {
        Validator::Any => true,
        Validator::UnsignedInt => parse_u64(s).is_some(),
        Validator::Boolean => str_eq(s, "true") || str_eq(s, "false"),
    }
}

/// A module's declared configuration value.
#[derive(Debug, Clone, PartialEq, Eq)]
pub struct Value {
    pub key: String,
    pub help: String,
    pub validator: Validator,
    pub default: Option<String>,
}

/// Mathematical model of a declared [`Value`].
#[verifier::ext_equal]
pub ghost struct ValueModel {
    pub key: Seq<char>,
    pub help: Seq<char>,
    pub validator: Validator,
    pub default: Option<Seq<char>>,
}

impl View for Value {
    type V = ValueModel;

    open spec fn view(&self) -> ValueModel {
        ValueModel {
            key: self.key@,
            help: self.help@,
            validator: self.validator,
            default: match self.default {
                Some(d) => Some(d@),
                None => None,
            },
        }
    }
}

impl Value {
    /// Declares a config value.
    pub fn new(key: String, help: String, validator: Validator, default: Option<String>) -> (v:
        Value)
        ensures
            v@ == (ValueModel {
                key: key@,
                help: help@,
                validator,
                default: match default {
                    Some(d) => Some(d@),
                    None => None::<Seq<char>>,
                },
            }),
    {
        let v = Value { key, help, validator, default };
        proof {
            assert(v@ =~= (ValueModel {
                key: v.key@,
                help: v.help@,
                validator: v.validator,
                default: match v.default {
                    Some(d) => Some(d@),
                    None => None::<Seq<char>>,
                },
            }));
        }
        v
    }
}

} // verus!
