//! Thrift messages (their encoding is not supported yet).
use crate::frames::headers::{ArgScheme, ArgSchemeValue};
use vstd::prelude::*;

verus! {

/// A Thrift message.
#[derive(Default, Debug)]
pub struct ThriftMessage {}

impl ThriftMessage {
    /// The scheme of Thrift arguments.
    pub fn args_scheme() -> (s: ArgSchemeValue)
        ensures
            s@ == ArgScheme::Thrift,
    {
        ArgSchemeValue::Thrift
    }
}

} // verus!
