//! How the merged list leaves the gateway.

use vstd::prelude::*;
use crate::record::EmbryoList;

verus! {

/// What to do with the merged list.
#[derive(Clone, Debug, PartialEq, Eq)]
pub enum Delivery {
    /// Return the list as the answer to the query.
    Respond(EmbryoList),
    /// Acknowledge the query with an empty answer and push the list to
    /// `callback`, once and without waiting for more than the send itself.
    Forward { callback: String, body: EmbryoList },
}

/// Chooses the delivery: to the callback address if the query named one,
/// else back to the caller.
pub fn plan_delivery(callback: Option<String>, merged: EmbryoList) -> (d: Delivery)
    ensures
        d == (match callback {
            Some(address) => (Delivery::Forward { callback: address, body: merged }),
            None => Delivery::Respond(merged),
        }),
{
    match callback {
        Some(address) => Delivery::Forward { callback: address, body: merged },
        None => Delivery::Respond(merged),
    }
}

impl Delivery {
    /// The list to put in the answer to the query: the merged list when
    /// answering directly, nothing when forwarding. A failed forward does
    /// not change it.
    pub fn reply(&self) -> (body: Option<&EmbryoList>)
        ensures
            body == (match *self {
                Delivery::Respond(list) => Some(&list),
                Delivery::Forward { .. } => None::<&EmbryoList>,
            }),
    {
        match self {
            Delivery::Respond(list) => Some(list),
            Delivery::Forward { .. } => None,
        }
    }
}

} // verus!
