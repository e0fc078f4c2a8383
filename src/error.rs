//! Error types of the registry.
use vstd::prelude::*;

verus! {

/// Another live connection is already bound to the key.
#[derive(Debug, Clone, Copy, PartialEq, Eq)]
pub struct DuplicateConnectionsError;

/// The credential store holds no entry for the key.
#[derive(Debug, Clone, Copy, PartialEq, Eq)]
pub struct NoSuchValueError;

/// The connection pool of the credential store could not be created.
#[derive(Debug, Clone, Copy, PartialEq, Eq)]
pub struct CreateSqlPoolError;

impl DuplicateConnectionsError {
    /// Text shown to an operator.
    pub fn message(&self) -> (r: &'static str)
        ensures
            r@ == "存在使用当前key的在线客户端"@,
    {
        "存在使用当前key的在线客户端"
    }
}

impl NoSuchValueError {
    /// Text shown to an operator.
    pub fn message(&self) -> (r: &'static str)
        ensures
            r@ == "客户端提供了一个无效key"@,
    {
        "客户端提供了一个无效key"
    }
}

impl CreateSqlPoolError {
    /// Text shown to an operator.
    pub fn message(&self) -> (r: &'static str)
        ensures
            r@ == "创建sql池失败"@,
    {
        "创建sql池失败"
    }
}

/// Why a verification attempt was rejected.
#[derive(Debug, Clone, Copy, PartialEq, Eq, Structural)]
pub enum VerifyError {
    /// The key is bound to a different live connection.
    DuplicateKey,
    /// The credential store has no entry for the key.
    UnknownKey,
    /// The connection is not registered.
    NotConnected,
}

} // verus!
