//! Data carried for the push-notification collaborator.
//!
//! The core stores one opaque subscription blob per recipient key and hands
//! it back to the collaborator that owns signing and delivery; it neither
//! creates nor validates these records. The types here are the plain shape
//! of that data as the transport presents it.

use vstd::prelude::*;

verus! {

/// The key material of a push subscription.
pub struct SubscriptionKeysInfo {
    /// The subscriber's public key on the P-256 curve, base64-encoded.
    pub p256dh: String,
    /// The subscriber's authentication secret, base64-encoded.
    pub auth: String,
}

/// A push subscription: where to deliver, and with which keys.
pub struct PushSubscriptionInfo {
    /// The push service URL.
    pub endpoint: String,
    /// The key material the push service expects.
    pub keys: SubscriptionKeysInfo,
}

/// The payload of an outgoing push notification.
pub struct NotificationPayload {
    /// The notification title.
    pub title: String,
    /// The notification body text.
    pub body: String,
    /// An icon to show, if any.
    pub icon: Option<String>,
    /// A URL to open on click, if any.
    pub url: Option<String>,
}

} // verus!
