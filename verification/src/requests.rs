//! The request records replayed by the benchmark client.

use vstd::prelude::*;
use crate::convert::AppId;

verus! {

/// The operation a trace record asks of the store.
#[derive(Clone, Debug, PartialEq, Eq, Structural)]
pub enum DatabaseOperation {
    Unknown,
    Put,
    Update,
    Get,
    Delete,
    Scan,
    GetAndPut,
}

impl Default for DatabaseOperation {
    /// A record whose operation could not be read is `Unknown`.
    fn default() -> (r: Self)
        ensures
            r == DatabaseOperation::Unknown,
    {
        DatabaseOperation::Unknown
    }
}

impl DatabaseOperation {
    /// The operation's name.
    pub fn label(&self) -> (r: String)
        ensures
            *self == DatabaseOperation::Unknown ==> r@ == "Unknown"@,
            *self == DatabaseOperation::Put ==> r@ == "Put"@,
            *self == DatabaseOperation::Update ==> r@ == "Update"@,
            *self == DatabaseOperation::Get ==> r@ == "Get"@,
            *self == DatabaseOperation::Delete ==> r@ == "Delete"@,
            *self == DatabaseOperation::Scan ==> r@ == "Scan"@,
            *self == DatabaseOperation::GetAndPut ==> r@ == "GetAndPut"@,
    {
        match self {
            DatabaseOperation::Unknown => "Unknown".to_string(),
            DatabaseOperation::Put => "Put".to_string(),
            DatabaseOperation::Update => "Update".to_string(),
            DatabaseOperation::Get => "Get".to_string(),
            DatabaseOperation::Delete => "Delete".to_string(),
            DatabaseOperation::Scan => "Scan".to_string(),
            DatabaseOperation::GetAndPut => "GetAndPut".to_string(),
        }
    }
}

/// One replayable request against the store.
#[derive(Clone, Debug)]
pub struct DatabaseRequest {
    pub operation: DatabaseOperation,
    pub key: String,
    pub keys: Vec<String>,
    pub key_len: u32,
    pub value: Option<String>,
    pub value_len: usize,
    pub timestamp: u64,
    pub thread_id: u16,
    pub n_req: u64,
}

impl Default for DatabaseRequest {
    /// An empty request: no key, no value, a single unknown operation.
    fn default() -> (r: Self)
        ensures
            r.operation == DatabaseOperation::Unknown,
            r.key@.len() == 0,
            r.keys@.len() == 0,
            r.key_len == 0,
            r.value is None,
            r.value_len == 0,
            r.timestamp == 0,
            r.thread_id == 0,
            r.n_req == 0,
    {
        DatabaseRequest {
            operation: DatabaseOperation::Unknown,
            key: String::new(),
            keys: Vec::new(),
            key_len: 0,
            value: None,
            value_len: 0,
            timestamp: 0,
            thread_id: 0,
            n_req: 0,
        }
    }
}

/// A request bound to the tenant that issued it.
#[derive(Clone, Debug)]
pub struct AppDatabaseRequest {
    pub app_id: AppId,
    pub db_req: DatabaseRequest,
}

} // verus!
