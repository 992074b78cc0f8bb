//! Signed spends: how the store reads them and when two of them are the same.

use vstd::prelude::*;

use crate::chunk::content_name;
use crate::chunk::xor_name_of;
use crate::record::Key;

verus! {

/// The identifier of the certificate that is spent, in bytes, if `payload` is the bincode form
/// of an `sn_dbc::SignedSpend`.
pub uninterp spec fn spend_dbc_id(payload: Seq<u8>) -> Option<Seq<u8>>;

/// Whether two byte strings are the bincode forms of `sn_dbc::SignedSpend` values that
/// compare equal.
pub uninterp spec fn signed_spends_equal(a: Seq<u8>, b: Seq<u8>) -> bool;

/// Calls `bincode::deserialize` for an `sn_dbc::SignedSpend`, and hands out the bytes of the
/// spend's `dbc_id`.
///
/// Whether the bytes hold a spend, and which certificate it spends, depends on the bytes alone.
#[verifier::external_body]
fn decode_dbc_id(payload: &[u8]) -> (result: Result<Vec<u8>, Box<bincode::ErrorKind>>)
    ensures
        spend_dbc_id(payload@) == (match result {
            Ok(id) => Some(id@),
            Err(_) => None,
        }),
{
    bincode::deserialize::<sn_dbc::SignedSpend>(payload).map(
        |spend| spend.dbc_id().to_bytes().to_vec(),
    )
}

/// Compares two encoded `sn_dbc::SignedSpend` values with the type's own `==`.
///
/// The outcome depends on the two byte strings alone. Bytes that hold no spend equal nothing;
/// bytes that hold one equal themselves.
#[verifier::external_body]
fn compare_signed_spends(a: &[u8], b: &[u8]) -> (equal: bool)
    ensures
        equal == signed_spends_equal(a@, b@),
        equal ==> spend_dbc_id(a@) is Some && spend_dbc_id(b@) is Some,
        a@ == b@ && spend_dbc_id(a@) is Some ==> equal,
{
    match (
        bincode::deserialize::<sn_dbc::SignedSpend>(a),
        bincode::deserialize::<sn_dbc::SignedSpend>(b),
    ) {
        (Ok(a), Ok(b)) => a == b,
        _ => false,
    }
}

/// The name under which the spend that `payload` holds is stored.
pub open spec fn spend_name(payload: Seq<u8>) -> Option<Seq<u8>> {
    match spend_dbc_id(payload) {
        Some(id) => Some(content_name(id)),
        None => None,
    }
}

/// The name under which the spend that `payload` holds is stored, if it holds a spend.
pub fn name_of_spend(payload: &[u8]) -> (name: Option<Key>)
    ensures
        spend_name(payload@) == (match name {
            Some(key) => Some(key@),
            None => None,
        }),
        name is Some <==> spend_dbc_id(payload@) is Some,
        name is Some ==> name->Some_0@ == content_name(spend_dbc_id(payload@)->Some_0),
{
    match decode_dbc_id(payload) {
        Ok(id) => {
            let name: [u8; 32] = xor_name_of(id.as_slice());
            Some(Key::new(name.as_slice()))
        },
        Err(_) => None,
    }
}

/// How a spend that is already stored relates to one that arrives under the same key.
#[derive(Debug, Clone, Copy, PartialEq, Eq, Structural)]
pub enum LocalSpend {
    /// The stored record could not be read.
    Missing,
    /// The stored record holds no spend.
    Unreadable,
    /// The two spends are the same.
    Same,
    /// The two spends differ.
    Different,
}

/// How the spend in the payload `local`, if it was read, relates to the one in `payload`.
pub open spec fn local_spend(payload: Seq<u8>, local: Option<Seq<u8>>) -> LocalSpend {
    match local {
        None => LocalSpend::Missing,
        Some(stored) => if spend_dbc_id(stored) is None {
            LocalSpend::Unreadable
        } else if signed_spends_equal(payload, stored) {
            LocalSpend::Same
        } else {
            LocalSpend::Different
        },
    }
}

/// Holds the payload of a stored spend, if it was read, against that of an arriving one.
pub fn compare_with_local(payload: &[u8], local: Option<&[u8]>) -> (relation: LocalSpend)
    ensures
        relation == local_spend(
            payload@,
            match local {
                Some(stored) => Some(stored@),
                None => None,
            },
        ),
        relation == LocalSpend::Missing <==> local is None,
        relation == LocalSpend::Unreadable <==> local is Some && spend_dbc_id(local->Some_0@)
            is None,
        relation == LocalSpend::Same <==> local is Some && spend_dbc_id(local->Some_0@) is Some
            && signed_spends_equal(payload@, local->Some_0@),
        relation == LocalSpend::Different <==> local is Some && spend_dbc_id(local->Some_0@)
            is Some && !signed_spends_equal(payload@, local->Some_0@),
        // The same bytes hold the same spend.
        local matches Some(stored) && stored@ == payload@ && spend_dbc_id(payload@) is Some
            ==> relation == LocalSpend::Same,
{
    match local {
        None => LocalSpend::Missing,
        Some(stored) => match decode_dbc_id(stored) {
            Err(_) => LocalSpend::Unreadable,
            Ok(_) => if compare_signed_spends(payload, stored) {
                LocalSpend::Same
            } else {
                LocalSpend::Different
            },
        },
    }
}

/// A spend is named by the certificate that it spends and by nothing else: two spends of one
/// certificate have the same name, whatever else they hold, and bytes without a spend have none.
pub proof fn spends_are_named_by_their_certificate(a: Seq<u8>, b: Seq<u8>)
    ensures
        spend_name(a) is Some <==> spend_dbc_id(a) is Some,
        forall|id: Seq<u8>|
            spend_dbc_id(a) == Some(id) ==> spend_name(a) == Some(#[trigger] content_name(id)),
        spend_dbc_id(a) == spend_dbc_id(b) ==> spend_name(a) == spend_name(b),
{
}

/// A stored spend that can be read is called the same as an arriving one exactly if the two
/// compare equal, and different exactly if they do not. Nothing else about them plays a part.
pub proof fn spends_are_told_apart_by_comparison(payload: Seq<u8>, stored: Seq<u8>)
    ensures
        local_spend(payload, None) == LocalSpend::Missing,
        local_spend(payload, Some(stored)) == LocalSpend::Unreadable <==> spend_dbc_id(stored)
            is None,
        local_spend(payload, Some(stored)) == LocalSpend::Same <==> spend_dbc_id(stored) is Some
            && signed_spends_equal(payload, stored),
        local_spend(payload, Some(stored)) == LocalSpend::Different <==> spend_dbc_id(stored)
            is Some && !signed_spends_equal(payload, stored),
        local_spend(payload, Some(stored)) != LocalSpend::Missing,
{
}

} // verus!
