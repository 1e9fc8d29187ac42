//! The object-detail and subscription events that the engine streams.
use vstd::prelude::*;
use crate::fields::{FieldValue, Fields};

verus! {

/// All details of an object were sent.
#[derive(PartialEq, Debug)]
pub struct DetailsSet {
    pub id: String,
    pub sub_ids: Vec<String>,
    pub details: Option<Fields>,
}

/// One changed detail of an object.
#[derive(PartialEq, Debug)]
pub struct AmendEntry {
    pub key: String,
    pub value: Option<FieldValue>,
}

/// Some details of an object changed.
#[derive(PartialEq, Debug)]
pub struct DetailsAmend {
    pub id: String,
    pub sub_ids: Vec<String>,
    pub details: Vec<AmendEntry>,
}

/// An object entered a subscription, after `after_id` (first when empty).
#[derive(Clone, PartialEq, Debug)]
pub struct SubscriptionAdd {
    pub id: String,
    pub after_id: String,
    pub sub_id: String,
}

/// An object left a subscription.
#[derive(Clone, PartialEq, Debug)]
pub struct SubscriptionRemove {
    pub id: String,
    pub sub_id: String,
}

} // verus!
