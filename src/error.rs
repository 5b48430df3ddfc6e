//! Error taxonomy of the engine and how each error is shown to a caller.

use vstd::prelude::*;
use vstd::string::*;
use crate::text::joined;

verus! {

/// Errors of the engine. Store and remote-service failures carry their detail
/// for the server log; callers only see a generic message for them.
#[derive(Debug)]
pub enum AppError {
    InvalidSignature,
    NotFound,
    Conflict(String),
    OrderExpired,
    UndeployedAccount(String),
    Unauthorized,
    Database(String),
    StarknetRpc(String),
    Internal(String),
    BadRequest(String),
}

/// HTTP status of each error.
pub open spec fn status_of(e: AppError) -> u16 {
    match e {
        AppError::InvalidSignature => 422,
        AppError::NotFound => 404,
        AppError::Conflict(_) => 409,
        AppError::OrderExpired => 422,
        AppError::UndeployedAccount(_) => 422,
        AppError::Unauthorized => 401,
        AppError::Database(_) => 500,
        AppError::StarknetRpc(_) => 502,
        AppError::Internal(_) => 500,
        AppError::BadRequest(_) => 400,
    }
}

/// The message a caller is shown: no internal detail for store, remote or
/// internal failures.
pub open spec fn public_message_of(e: AppError) -> Seq<char> {
    match e {
        AppError::InvalidSignature => "Invalid signature"@,
        AppError::NotFound => "Resource not found"@,
        AppError::Conflict(m) => m@,
        AppError::OrderExpired => "Order expired"@,
        AppError::UndeployedAccount(a) => "Account not deployed: "@ + a@,
        AppError::Unauthorized => "Unauthorized"@,
        AppError::Database(_) => "Internal server error"@,
        AppError::StarknetRpc(_) => "StarkNet RPC error"@,
        AppError::Internal(_) => "Internal server error"@,
        AppError::BadRequest(m) => m@,
    }
}

/// Whether the error's detail belongs in the server log only.
pub open spec fn is_internal_failure(e: AppError) -> bool {
    match e {
        AppError::Database(_) | AppError::StarknetRpc(_) | AppError::Internal(_) => true,
        _ => false,
    }
}

impl AppError {
    /// The HTTP status that reports this error.
    pub fn status_code(&self) -> (r: u16)
        ensures
            r == status_of(*self),
    {
        match self {
            AppError::InvalidSignature => 422,
            AppError::NotFound => 404,
            AppError::Conflict(_) => 409,
            AppError::OrderExpired => 422,
            AppError::UndeployedAccount(_) => 422,
            AppError::Unauthorized => 401,
            AppError::Database(_) => 500,
            AppError::StarknetRpc(_) => 502,
            AppError::Internal(_) => 500,
            AppError::BadRequest(_) => 400,
        }
    }

    /// The message shown to the caller.
    pub fn public_message(&self) -> (r: String)
        ensures
            r@ == public_message_of(*self),
    {
        match self {
            AppError::InvalidSignature => String::from_str("Invalid signature"),
            AppError::NotFound => String::from_str("Resource not found"),
            AppError::Conflict(m) => m.clone(),
            AppError::OrderExpired => String::from_str("Order expired"),
            AppError::UndeployedAccount(a) => joined("Account not deployed: ", a.as_str()),
            AppError::Unauthorized => String::from_str("Unauthorized"),
            AppError::Database(_) => String::from_str("Internal server error"),
            AppError::StarknetRpc(_) => String::from_str("StarkNet RPC error"),
            AppError::Internal(_) => String::from_str("Internal server error"),
            AppError::BadRequest(m) => m.clone(),
        }
    }

    /// Whether the error's detail must stay in the server log.
    pub fn is_internal(&self) -> (r: bool)
        ensures
            r == is_internal_failure(*self),
    {
        match self {
            AppError::Database(_) | AppError::StarknetRpc(_) | AppError::Internal(_) => true,
            _ => false,
        }
    }

    /// The full description of the error, detail included.
    pub fn to_string(&self) -> (r: String)
        ensures
            r@ == description_of(*self),
    {
        match self {
            AppError::InvalidSignature => String::from_str("Invalid signature"),
            AppError::NotFound => String::from_str("Resource not found"),
            AppError::Conflict(m) => joined("Conflict: ", m.as_str()),
            AppError::OrderExpired => String::from_str("Order expired"),
            AppError::UndeployedAccount(a) => joined("Undeployed account: ", a.as_str()),
            AppError::Unauthorized => String::from_str("Unauthorized"),
            AppError::Database(m) => joined("Database error: ", m.as_str()),
            AppError::StarknetRpc(m) => joined("StarkNet RPC error: ", m.as_str()),
            AppError::Internal(m) => joined("Internal error: ", m.as_str()),
            AppError::BadRequest(m) => joined("Bad request: ", m.as_str()),
        }
    }
}

/// The full description of each error, detail included.
pub open spec fn description_of(e: AppError) -> Seq<char> {
    match e {
        AppError::InvalidSignature => "Invalid signature"@,
        AppError::NotFound => "Resource not found"@,
        AppError::Conflict(m) => "Conflict: "@ + m@,
        AppError::OrderExpired => "Order expired"@,
        AppError::UndeployedAccount(a) => "Undeployed account: "@ + a@,
        AppError::Unauthorized => "Unauthorized"@,
        AppError::Database(m) => "Database error: "@ + m@,
        AppError::StarknetRpc(m) => "StarkNet RPC error: "@ + m@,
        AppError::Internal(m) => "Internal error: "@ + m@,
        AppError::BadRequest(m) => "Bad request: "@ + m@,
    }
}

} // verus!
