//! The engine's data: orders as signed and as stored, their statuses, and a
//! taker's intent.

use vstd::prelude::*;
use vstd::string::*;
use crate::text::{joined, text_is};

verus! {

/// The six possible order statuses.
#[derive(Debug, Clone, Copy, PartialEq, Eq, Structural)]
pub enum OrderStatus {
    Open,
    Reserved,
    SoftCancelled,
    Cancelled,
    Filled,
    Expired,
}

/// The stored text of each status.
pub open spec fn status_text(s: OrderStatus) -> Seq<char> {
    match s {
        OrderStatus::Open => "open"@,
        OrderStatus::Reserved => "reserved"@,
        OrderStatus::SoftCancelled => "soft_cancelled"@,
        OrderStatus::Cancelled => "cancelled"@,
        OrderStatus::Filled => "filled"@,
        OrderStatus::Expired => "expired"@,
    }
}

impl OrderStatus {
    /// The stored text of this status.
    pub fn to_string(&self) -> (r: String)
        ensures
            r@ == status_text(*self),
    {
        match self {
            OrderStatus::Open => String::from_str("open"),
            OrderStatus::Reserved => String::from_str("reserved"),
            OrderStatus::SoftCancelled => String::from_str("soft_cancelled"),
            OrderStatus::Cancelled => String::from_str("cancelled"),
            OrderStatus::Filled => String::from_str("filled"),
            OrderStatus::Expired => String::from_str("expired"),
        }
    }

    /// Reads a status from its stored text.
    pub fn from_str(s: &str) -> (r: Result<OrderStatus, String>)
        ensures
            r matches Ok(st) ==> status_text(st) == s@,
            r matches Err(m) ==> m@ == "Unknown order status: "@ + s@ && forall|st: OrderStatus|
                status_text(st) != s@,
    {
        proof {
            reveal_strlit("open");
            reveal_strlit("reserved");
            reveal_strlit("soft_cancelled");
            reveal_strlit("cancelled");
            reveal_strlit("filled");
            reveal_strlit("expired");
        }
        if text_is(s, "open") {
            Ok(OrderStatus::Open)
        } else if text_is(s, "reserved") {
            Ok(OrderStatus::Reserved)
        } else if text_is(s, "soft_cancelled") {
            Ok(OrderStatus::SoftCancelled)
        } else if text_is(s, "cancelled") {
            Ok(OrderStatus::Cancelled)
        } else if text_is(s, "filled") {
            Ok(OrderStatus::Filled)
        } else if text_is(s, "expired") {
            Ok(OrderStatus::Expired)
        } else {
            Err(joined("Unknown order status: ", s))
        }
    }
}

/// The action a taker wants to perform.
#[derive(Debug, Clone, Copy, PartialEq, Eq, Structural)]
pub enum ActionType {
    Borrow,
    Lend,
}

/// A taker's intent to match against available orders.
#[derive(Debug)]
pub struct TakerIntent {
    /// Whether the taker wants to borrow or lend.
    pub action: ActionType,
    /// Desired amount in basis points.
    pub bps: u64,
    /// Which inscription/asset pair to match against.
    pub inscription_id: String,
}

/// The terms of an order as its maker signs them. Field order is the
/// canonical order of the signed message.
#[derive(Debug)]
pub struct SignedOrder {
    /// Maker's account address (hex string).
    pub maker: String,
    /// Allowed taker address. "0x0" means any taker can fill.
    pub allowed_taker: String,
    /// Inscription id as decimal string (u256).
    pub inscription_id: String,
    /// Basis points as decimal string (u256).
    pub bps: String,
    /// Expiry unix timestamp.
    pub deadline: u64,
    /// Unique nonce as hex string (felt252).
    pub nonce: String,
    /// Minimum fill basis points as decimal string (u256).
    pub min_fill_bps: String,
}

/// Request to submit an order.
#[derive(Debug)]
pub struct SubmitOrderRequest {
    pub order: SignedOrder,
    /// Signature as [r, s] hex strings.
    pub signature: [String; 2],
}

/// Request to soft-cancel an order.
#[derive(Debug)]
pub struct CancelRequest {
    pub maker: String,
}

/// A single order with its computed score in a match response.
#[derive(Debug, Clone, Copy, PartialEq, Eq)]
pub struct ScoredOrder {
    pub order_id: u128,
    pub score: u64,
    pub available_bps: u64,
}

/// The result of a match query.
#[derive(Debug)]
pub struct MatchResult {
    pub matches: Vec<ScoredOrder>,
    pub total_available_bps: u64,
    pub fully_covered: bool,
}

/// An order as the store holds it. Instants are unix seconds.
#[derive(Debug)]
pub struct OrderRecord {
    pub id: u128,
    pub order_hash: String,
    pub maker: String,
    pub allowed_taker: String,
    pub inscription_id: String,
    pub bps: String,
    pub deadline: i64,
    pub nonce: String,
    pub min_fill_bps: String,
    pub signature_r: String,
    pub signature_s: String,
    pub status: OrderStatus,
    pub filled_bps: String,
    pub reserved_until: Option<i64>,
    pub created_at: i64,
    pub updated_at: i64,
}

impl OrderRecord {
    /// A field-for-field copy of the record.
    pub fn duplicate(&self) -> (r: OrderRecord)
        ensures
            r == *self,
    {
        OrderRecord {
            id: self.id,
            order_hash: self.order_hash.clone(),
            maker: self.maker.clone(),
            allowed_taker: self.allowed_taker.clone(),
            inscription_id: self.inscription_id.clone(),
            bps: self.bps.clone(),
            deadline: self.deadline,
            nonce: self.nonce.clone(),
            min_fill_bps: self.min_fill_bps.clone(),
            signature_r: self.signature_r.clone(),
            signature_s: self.signature_s.clone(),
            status: self.status,
            filled_bps: self.filled_bps.clone(),
            reserved_until: self.reserved_until,
            created_at: self.created_at,
            updated_at: self.updated_at,
        }
    }
}

} // verus!
