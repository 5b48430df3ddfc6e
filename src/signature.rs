//! The canonical signed-order message, the order hash derived from it, and
//! the pieces of a signature check that the maker's account performs.

use vstd::prelude::*;
use vstd::string::*;
use crate::decimal::{decimal_value, is_unsigned_decimal};
use crate::wide::{all_radix_digits, half_base, halves, parse_decimal_wide, radix_value, wide_limit};
use vstd::arithmetic::power::pow;
use crate::encoding::{
    decimal_text, hex_of_bytes, hex_text, json_string, push_json_string, to_decimal,
};
use crate::error::AppError;
use crate::models::SignedOrder;
use crate::text::{contains, contains_text, joined};

verus! {

/// The prime of the field: 2^251 + 17 * 2^192 + 1.
pub open spec fn felt_prime() -> nat {
    0x800000000000011000000000000000000000000000000000000000000000001nat
}

/// The digits of a field element's hexadecimal text: without a leading
/// `0x` when more follows.
pub open spec fn felt_hex_digits(s: Seq<char>) -> Seq<char> {
    if s.len() > 2 && s[0] == '0' && s[1] == 'x' {
        s.subrange(2, s.len() as int)
    } else {
        s
    }
}

/// The 32 big-endian bytes of `n` (below 2^256).
pub open spec fn be_bytes32(n: nat) -> Seq<u8> {
    Seq::new(32, |i: int| ((n as int / pow(256, (31 - i) as nat)) % 256) as u8)
}

/// The field element that hexadecimal text `s` denotes, as 32 big-endian
/// bytes: one to 64 hexadecimal digits after an optional `0x`, of value at
/// most the prime, reduced modulo the prime; `None` for any other text.
pub open spec fn felt_of_hex(s: Seq<char>) -> Option<Seq<u8>> {
    let d = felt_hex_digits(s);
    if all_radix_digits(d, 16) && d.len() <= 64 && radix_value(d, 16) <= felt_prime() {
        Some(be_bytes32(radix_value(d, 16) % felt_prime()))
    } else {
        None
    }
}

/// The structured-message hash of the typed-data document `message` for the
/// account `account` (32 big-endian bytes); `None` when the document is not
/// well-formed typed data or cannot be hashed.
pub uninterp spec fn typed_data_hash_of(message: Seq<char>, account: Seq<u8>) -> Option<Seq<u8>>;

/// Why a typed-data document could not be hashed.
#[derive(Debug)]
pub enum HashFailure {
    /// The document is not typed data.
    Malformed(String),
    /// The typed data could not be hashed.
    Unhashable(String),
}

/// Relies on `Felt::from_hex` of starknet (starknet-types-core, through
/// lambdaworks' `UnsignedInteger::from_hex`): reads a field element from
/// hexadecimal text, returned as its canonical big-endian bytes
/// (`Felt::to_bytes_be`).
#[verifier::external_body]
fn felt_from_hex(s: &str) -> (r: Result<[u8; 32], String>)
    ensures
        r matches Ok(b) ==> felt_of_hex(s@) == Some(b@),
        r is Err ==> felt_of_hex(s@) is None,
{
    match starknet::core::types::Felt::from_hex(s) {
        Ok(f) => Ok(f.to_bytes_be()),
        Err(e) => Err(e.to_string()),
    }
}

/// Relies on serde_json's `from_str` reading starknet's `TypedData`, and on
/// `TypedData::message_hash` for the account given as big-endian bytes. The
/// result depends on the document and the account alone.
#[verifier::external_body]
fn typed_data_message_hash(message: &str, account: &[u8; 32]) -> (r: Result<[u8; 32], HashFailure>)
    ensures
        r matches Ok(h) ==> typed_data_hash_of(message@, account@) == Some(h@),
        r is Err ==> typed_data_hash_of(message@, account@) is None,
{
    let data: starknet::core::types::typed_data::TypedData = match serde_json::from_str(message) {
        Ok(d) => d,
        Err(e) => return Err(HashFailure::Malformed(e.to_string())),
    };
    match data.message_hash(starknet::core::types::Felt::from_bytes_be(account)) {
        Ok(h) => Ok(h.to_bytes_be()),
        Err(e) => Err(HashFailure::Unhashable(e.to_string())),
    }
}

/// A u256 quantity as the low and high halves of its value.
#[derive(Debug, Clone, Copy, PartialEq, Eq)]
pub struct U256Parts {
    pub low: u128,
    pub high: u128,
}

/// The text that the standard integer reader gives for a rejected decimal.
pub open spec fn parse_error_text(s: Seq<char>) -> Seq<char> {
    if s.len() == 0 {
        "cannot parse integer from empty string"@
    } else if !is_unsigned_decimal(s) {
        "invalid digit found in string"@
    } else {
        "number too large to fit in target type"@
    }
}

/// Whether a decimal quantity can be carried: a u256, below 2^256.
pub open spec fn u256_ok(s: Seq<char>) -> bool {
    is_unsigned_decimal(s) && decimal_value(s) < wide_limit()
}

/// Convert a decimal u256 value into its low and high 128-bit halves:
/// `low = v mod 2^128`, `high = v / 2^128`. Text that is no unsigned decimal
/// below 2^256 is a `BadRequest`.
pub fn build_u256_value(decimal_str: &str) -> (r: Result<U256Parts, AppError>)
    ensures
        r matches Ok(p) ==> u256_ok(decimal_str@) && p.low == (decimal_value(decimal_str@)
            as int) % half_base() && p.high == (decimal_value(decimal_str@) as int) / half_base(),
        r matches Err(e) ==> !u256_ok(decimal_str@) && e == AppError::BadRequest(e->BadRequest_0)
            && e->BadRequest_0@ == "Invalid u256 value '"@ + decimal_str@ + "': "@
            + parse_error_text(decimal_str@),
{
    match parse_decimal_wide(decimal_str) {
        Some(v) => {
            let (low, high) = halves(&v);
            Ok(U256Parts { low, high })
        },
        None => {
            let reason = if decimal_str.unicode_len() == 0 {
                String::from_str("cannot parse integer from empty string")
            } else if !is_decimal(decimal_str) {
                String::from_str("invalid digit found in string")
            } else {
                String::from_str("number too large to fit in target type")
            };
            let mut m = joined("Invalid u256 value '", decimal_str);
            m.append("': ");
            m.append(reason.as_str());
            Err(AppError::BadRequest(m))
        },
    }
}

fn is_decimal(s: &str) -> (r: bool)
    ensures
        r == is_unsigned_decimal(s@),
{
    let n = s.unicode_len();
    let start: usize = if n > 0 && s.get_char(0) == '+' {
        1
    } else {
        0
    };
    let ghost d = crate::decimal::digits_of(s@);
    proof {
        if start == 1 {
            assert(d =~= s@.subrange(1, n as int));
        } else {
            assert(d =~= s@);
        }
    }
    if start == n {
        return false;
    }
    let mut i: usize = start;
    while i < n
        invariant
            n == s@.len(),
            start <= i <= n,
            d == crate::decimal::digits_of(s@),
            d.len() == n - start,
            forall|k: int| 0 <= k < d.len() ==> d[k] == s@[start + k],
            forall|k: int| 0 <= k < i - start ==> crate::decimal::is_digit(#[trigger] d[k]),
        decreases n - i,
    {
        let c = s.get_char(i);
        if c < '0' || c > '9' {
            proof {
                assert(!crate::decimal::is_digit(d[i - start]));
            }
            return false;
        }
        i = i + 1;
    }
    true
}

/// A u256 quantity as typed data: its low and high 128-bit halves as
/// decimal text.
pub open spec fn u256_json(v: nat) -> Seq<char> {
    "{\"low\":\""@ + decimal_text(((v as int) % half_base()) as nat) + "\",\"high\":\""@ + decimal_text(
        ((v as int) / half_base()) as nat,
    ) + "\"}"@
}

/// The canonical typed-data document of an order: the domain (protocol
/// "Stela", version 1, revision 1, chain `chain_id`) and the order's fields
/// in their fixed order.
pub open spec fn order_message_text(
    chain_id: Seq<char>,
    maker: Seq<char>,
    allowed_taker: Seq<char>,
    inscription_id: nat,
    bps: nat,
    deadline: nat,
    nonce: Seq<char>,
    min_fill_bps: nat,
) -> Seq<char> {
    "{\"types\":{\"StarknetDomain\":[{\"name\":\"name\",\"type\":\"shortstring\"},{\"name\":\"version\",\"type\":\"shortstring\"},{\"name\":\"chainId\",\"type\":\"shortstring\"},{\"name\":\"revision\",\"type\":\"shortstring\"}],\"SignedOrder\":[{\"name\":\"maker\",\"type\":\"ContractAddress\"},{\"name\":\"allowed_taker\",\"type\":\"ContractAddress\"},{\"name\":\"inscription_id\",\"type\":\"u256\"},{\"name\":\"bps\",\"type\":\"u256\"},{\"name\":\"deadline\",\"type\":\"u128\"},{\"name\":\"nonce\",\"type\":\"felt\"},{\"name\":\"min_fill_bps\",\"type\":\"u256\"}]},\"primaryType\":\"SignedOrder\",\"domain\":{\"name\":\"Stela\",\"version\":\"1\",\"chainId\":"@ + json_string(chain_id) + ",\"revision\":\"1\"},\"message\":{\"maker\":"@ + json_string(maker)
        + ",\"allowed_taker\":"@ + json_string(allowed_taker) + ",\"inscription_id\":"@ + u256_json(
        inscription_id,
    ) + ",\"bps\":"@ + u256_json(bps) + ",\"deadline\":"@ + json_string(decimal_text(deadline))
        + ",\"nonce\":"@ + json_string(nonce) + ",\"min_fill_bps\":"@ + u256_json(min_fill_bps)
        + "}}"@
}

/// Whether the order's quantities can all be carried.
pub open spec fn quantities_ok(order: SignedOrder) -> bool {
    u256_ok(order.inscription_id@) && u256_ok(order.bps@) && u256_ok(order.min_fill_bps@)
}

/// The canonical document of an order whose quantities can be carried.
pub open spec fn order_message(chain_id: Seq<char>, order: SignedOrder) -> Seq<char> {
    order_message_text(
        chain_id,
        order.maker@,
        order.allowed_taker@,
        decimal_value(order.inscription_id@),
        decimal_value(order.bps@),
        order.deadline as nat,
        order.nonce@,
        decimal_value(order.min_fill_bps@),
    )
}

fn push_u256(out: &mut String, p: U256Parts, Ghost(v): Ghost<nat>)
    requires
        p.low == (v as int) % half_base(),
        p.high == (v as int) / half_base(),
    ensures
        final(out)@ == old(out)@ + u256_json(v),
{
    out.append("{\"low\":\"");
    let low = to_decimal(p.low);
    out.append(low.as_str());
    out.append("\",\"high\":\"");
    let high = to_decimal(p.high);
    out.append(high.as_str());
    out.append("\"}");
    proof {
        assert(out@ =~= old(out)@ + u256_json(v));
    }
}

/// Build the canonical typed-data document of an order. Fails with
/// `BadRequest` on the first quantity (inscription id, size, minimum fill)
/// that cannot be carried.
pub fn build_typed_data(chain_id: &str, order: &SignedOrder) -> (r: Result<String, AppError>)
    ensures
        r is Ok <==> quantities_ok(*order),
        r matches Ok(t) ==> t@ == order_message(chain_id@, *order),
        r matches Err(e) ==> e is BadRequest,
{
    let ins = build_u256_value(order.inscription_id.as_str())?;
    let bps = build_u256_value(order.bps.as_str())?;
    let min = build_u256_value(order.min_fill_bps.as_str())?;
    let mut t = String::from_str("{\"types\":{\"StarknetDomain\":[{\"name\":\"name\",\"type\":\"shortstring\"},{\"name\":\"version\",\"type\":\"shortstring\"},{\"name\":\"chainId\",\"type\":\"shortstring\"},{\"name\":\"revision\",\"type\":\"shortstring\"}],\"SignedOrder\":[{\"name\":\"maker\",\"type\":\"ContractAddress\"},{\"name\":\"allowed_taker\",\"type\":\"ContractAddress\"},{\"name\":\"inscription_id\",\"type\":\"u256\"},{\"name\":\"bps\",\"type\":\"u256\"},{\"name\":\"deadline\",\"type\":\"u128\"},{\"name\":\"nonce\",\"type\":\"felt\"},{\"name\":\"min_fill_bps\",\"type\":\"u256\"}]},\"primaryType\":\"SignedOrder\",\"domain\":{\"name\":\"Stela\",\"version\":\"1\",\"chainId\":");
    push_json_string(&mut t, chain_id);
    t.append(",\"revision\":\"1\"},\"message\":{\"maker\":");
    push_json_string(&mut t, order.maker.as_str());
    t.append(",\"allowed_taker\":");
    push_json_string(&mut t, order.allowed_taker.as_str());
    t.append(",\"inscription_id\":");
    push_u256(&mut t, ins, Ghost(decimal_value(order.inscription_id@)));
    t.append(",\"bps\":");
    push_u256(&mut t, bps, Ghost(decimal_value(order.bps@)));
    t.append(",\"deadline\":");
    let deadline = to_decimal(order.deadline as u128);
    push_json_string(&mut t, deadline.as_str());
    t.append(",\"nonce\":");
    push_json_string(&mut t, order.nonce.as_str());
    t.append(",\"min_fill_bps\":");
    push_u256(&mut t, min, Ghost(decimal_value(order.min_fill_bps@)));
    t.append("}}");
    proof {
        assert(t@ =~= order_message(chain_id@, *order));
    }
    Ok(t)
}

/// The order hash: "0x" and 64 lowercase hexadecimal digits of the
/// structured-message hash of the order's canonical document, scoped by the
/// maker's account; `None` when any step fails.
pub open spec fn order_hash_of(chain_id: Seq<char>, order: SignedOrder) -> Option<Seq<char>> {
    if !quantities_ok(order) {
        None
    } else {
        match felt_of_hex(order.maker@) {
            None => None,
            Some(account) => match typed_data_hash_of(order_message(chain_id, order), account) {
                None => None,
                Some(h) => Some(seq!['0', 'x'] + hex_text(h)),
            },
        }
    }
}

/// The maker's account and the message hash of an order.
fn order_digest(chain_id: &str, order: &SignedOrder) -> (r: Result<([u8; 32], [u8; 32]), AppError>)
    ensures
        r matches Ok((account, hash)) ==> quantities_ok(*order) && felt_of_hex(order.maker@)
            == Some(account@) && typed_data_hash_of(order_message(chain_id@, *order), account@)
            == Some(hash@),
        r is Err ==> order_hash_of(chain_id@, *order) is None,
        r matches Err(e) ==> {
            &&& !quantities_ok(*order) ==> e is BadRequest
            &&& quantities_ok(*order) && felt_of_hex(order.maker@) is None ==> e is BadRequest
            &&& quantities_ok(*order) && felt_of_hex(order.maker@) is Some ==> e is Internal
        },
{
    let message = build_typed_data(chain_id, order)?;
    let account = match felt_from_hex(order.maker.as_str()) {
        Ok(a) => a,
        Err(e) => {
            return Err(AppError::BadRequest(joined("Invalid maker address: ", e.as_str())));
        },
    };
    match typed_data_message_hash(message.as_str(), &account) {
        Ok(h) => Ok((account, h)),
        Err(HashFailure::Malformed(e)) => Err(
            AppError::Internal(joined("Failed to build TypedData: ", e.as_str())),
        ),
        Err(HashFailure::Unhashable(e)) => Err(
            AppError::Internal(joined("Failed to compute message hash: ", e.as_str())),
        ),
    }
}

/// Compute the deterministic hash of an order, which identifies it across
/// the engine and the ledger. Fails with `BadRequest` on an uncarriable
/// quantity or a maker that is no account address, and with `Internal` when
/// the document cannot be hashed.
pub fn compute_order_hash(chain_id: &str, order: &SignedOrder) -> (r: Result<String, AppError>)
    ensures
        r is Ok <==> order_hash_of(chain_id@, *order) is Some,
        r matches Ok(h) ==> order_hash_of(chain_id@, *order) == Some(h@) && h@.len() == 66,
        r matches Err(e) ==> {
            &&& !quantities_ok(*order) ==> e is BadRequest
            &&& quantities_ok(*order) && felt_of_hex(order.maker@) is None ==> e is BadRequest
            &&& quantities_ok(*order) && felt_of_hex(order.maker@) is Some ==> e is Internal
        },
{
    let (_, hash) = order_digest(chain_id, order)?;
    Ok(hex_of_bytes(&hash))
}

/// The order hash is a function of the chain and the order's canonical
/// fields: orders with the same terms on the same chain have the same hash.
pub proof fn lemma_order_hash_deterministic(
    chain_a: Seq<char>,
    a: SignedOrder,
    chain_b: Seq<char>,
    b: SignedOrder,
)
    requires
        chain_a == chain_b,
        a.maker@ == b.maker@,
        a.allowed_taker@ == b.allowed_taker@,
        a.inscription_id@ == b.inscription_id@,
        a.bps@ == b.bps@,
        a.deadline == b.deadline,
        a.nonce@ == b.nonce@,
        a.min_fill_bps@ == b.min_fill_bps@,
    ensures
        order_hash_of(chain_a, a) == order_hash_of(chain_b, b),
{
}

/// The read-only call that asks the maker's account whether a signature is
/// valid for an order: the account to call and the call's arguments
/// `[hash, 2, r, s]`.
#[derive(Debug)]
pub struct SignatureCall {
    pub contract_address: [u8; 32],
    pub calldata: Vec<[u8; 32]>,
}

/// A field element of small value, as 32 big-endian bytes.
pub open spec fn small_felt(v: u8) -> Seq<u8> {
    Seq::new(32, |i: int| if i == 31 { v } else { 0u8 })
}

/// The value that an account returns for a valid signature: the short
/// string "VALID", as 32 big-endian bytes.
pub open spec fn validated_felt() -> Seq<u8> {
    Seq::new(
        32,
        |i: int|
            if i == 27 {
                0x56u8
            } else if i == 28 {
                0x41u8
            } else if i == 29 {
                0x4cu8
            } else if i == 30 {
                0x49u8
            } else if i == 31 {
                0x44u8
            } else {
                0u8
            },
    )
}

/// Prepare the signature check of an order: the maker's account and the
/// arguments of its validation entry point. Fails as `compute_order_hash`
/// does, and with `InvalidSignature` when a signature component is no field
/// element.
pub fn signature_call(chain_id: &str, order: &SignedOrder, signature: &[String; 2]) -> (r: Result<
    SignatureCall,
    AppError,
>)
    ensures
        r matches Ok(c) ==> {
            &&& quantities_ok(*order)
            &&& felt_of_hex(order.maker@) == Some(c.contract_address@)
            &&& c.calldata@.len() == 4
            &&& typed_data_hash_of(order_message(chain_id@, *order), c.contract_address@) == Some(
                c.calldata@[0]@,
            )
            &&& c.calldata@[1]@ == small_felt(2)
            &&& felt_of_hex(signature[0]@) == Some(c.calldata@[2]@)
            &&& felt_of_hex(signature[1]@) == Some(c.calldata@[3]@)
        },
        r is Err <==> order_hash_of(chain_id@, *order) is None || felt_of_hex(signature[0]@) is None
            || felt_of_hex(signature[1]@) is None,
        r matches Err(e) ==> {
            &&& !quantities_ok(*order) ==> e is BadRequest
            &&& quantities_ok(*order) && felt_of_hex(order.maker@) is None ==> e is BadRequest
            &&& quantities_ok(*order) && felt_of_hex(order.maker@) is Some && order_hash_of(
                chain_id@,
                *order,
            ) is None ==> e is Internal
            &&& order_hash_of(chain_id@, *order) is Some ==> e is InvalidSignature
        },
{
    let (account, hash) = order_digest(chain_id, order)?;
    let sig_r = match felt_from_hex(signature[0].as_str()) {
        Ok(f) => f,
        Err(_) => {
            return Err(AppError::InvalidSignature);
        },
    };
    let sig_s = match felt_from_hex(signature[1].as_str()) {
        Ok(f) => f,
        Err(_) => {
            return Err(AppError::InvalidSignature);
        },
    };
    let two: [u8; 32] = [0, 0, 0, 0, 0, 0, 0, 0, 0, 0, 0, 0, 0, 0, 0, 0, 0, 0, 0, 0, 0, 0, 0, 0, 0, 0, 0, 0, 0, 0, 0, 2];
    proof {
        assert(two@ =~= small_felt(2));
    }
    let mut calldata: Vec<[u8; 32]> = Vec::new();
    calldata.push(hash);
    calldata.push(two);
    calldata.push(sig_r);
    calldata.push(sig_s);
    Ok(SignatureCall { contract_address: account, calldata })
}

fn same_felt(a: &[u8; 32], b: &[u8; 32]) -> (r: bool)
    ensures
        r == (a@ == b@),
{
    let mut i: usize = 0;
    while i < 32
        invariant
            a@.len() == 32,
            b@.len() == 32,
            i <= 32,
            forall|k: int| 0 <= k < i ==> a@[k] == b@[k],
        decreases 32 - i,
    {
        if a[i] != b[i] {
            return false;
        }
        i = i + 1;
    }
    proof {
        assert(a@ =~= b@);
    }
    true
}

/// Whether the account's answer accepts the signature: its first value is
/// the short string "VALID" or the value 1. An empty answer rejects.
pub fn signature_accepted(result: &Vec<[u8; 32]>) -> (r: bool)
    ensures
        r == (result@.len() > 0 && (result@[0]@ == validated_felt() || result@[0]@ == small_felt(1))),
{
    if result.len() == 0 {
        return false;
    }
    let validated: [u8; 32] = [0, 0, 0, 0, 0, 0, 0, 0, 0, 0, 0, 0, 0, 0, 0, 0, 0, 0, 0, 0, 0, 0, 0, 0, 0, 0, 0, 0x56, 0x41, 0x4c, 0x49, 0x44];
    let one: [u8; 32] = [0, 0, 0, 0, 0, 0, 0, 0, 0, 0, 0, 0, 0, 0, 0, 0, 0, 0, 0, 0, 0, 0, 0, 0, 0, 0, 0, 0, 0, 0, 0, 1];
    proof {
        assert(validated@ =~= validated_felt());
        assert(one@ =~= small_felt(1));
    }
    same_felt(&result[0], &validated) || same_felt(&result[0], &one)
}

/// What a failed validation call means: an account without deployed code
/// (the failure names a missing contract) is reported as such, anything else
/// is a remote-service error carrying the failure's text.
pub fn call_failure(failure: &str, maker: &str) -> (r: AppError)
    ensures
        (contains_text(failure@, "ContractNotFound"@) || contains_text(failure@, "contract not found"@))
            ==> r == AppError::UndeployedAccount(r->UndeployedAccount_0) && r->UndeployedAccount_0@
            == maker@,
        !(contains_text(failure@, "ContractNotFound"@) || contains_text(failure@, "contract not found"@))
            ==> r == AppError::StarknetRpc(r->StarknetRpc_0) && r->StarknetRpc_0@ == failure@,
{
    if contains(failure, "ContractNotFound") || contains(failure, "contract not found") {
        AppError::UndeployedAccount(String::from_str(maker))
    } else {
        AppError::StarknetRpc(String::from_str(failure))
    }
}

} // verus!
