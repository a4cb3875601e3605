//! Record types shared with the binary trace reader.

use vstd::prelude::*;

verus! {

/// The operation of one trace record.
#[derive(Clone, Copy, Debug, PartialEq, Eq, Structural)]
pub enum ReqOpE {
    Nop,
    Get,
    Gets,
    Store,
    Add,
    Cas,
    Replace,
    Append,
    Prepend,
    Delete,
    Incr,
    Decr,
    Read,
    Write,
    Update,
    Invalid,
}

/// An object identifier of the trace.
#[derive(Clone, Copy, Debug, PartialEq, Eq, Structural)]
pub struct ObjIdT {
    pub id: u64,
}

/// Key and value sizes of one key-value record.
#[derive(Clone, Copy, Debug, PartialEq, Eq, Structural)]
pub struct KVdata {
    pub key_size: u32,
    pub value_size: u32,
}

} // verus!
