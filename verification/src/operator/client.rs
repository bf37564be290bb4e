//! A subscriber as the router records it.
use vstd::prelude::*;
use vstd::std_specs::cmp::PartialEqSpecImpl;

use super::trie::ClientId;
use crate::mqtt::QoS;
use crate::topic::{opt_chars, opt_str_eq, str_eq};

verus! {

/// A client subscribed to a topic filter, with what delivering to it takes.
pub struct ClientInfo<T> {
    pub client_id: String,
    pub share_group: Option<String>,
    pub topic: String,
    pub qos: QoS,
    pub no_local: bool,
    pub store: bool,
    pub sender: T,
}

impl<T> ClientInfo<T> {
    /// Whether a message from `client_id` goes to this subscriber: not when the
    /// subscription asked for no local delivery and the message is its own.
    pub fn filter(&self, client_id: &str) -> (r: bool)
        ensures
            r == !(self.no_local && self.client_id@ == client_id@),
    {
        !(self.no_local && str_eq(self.client_id.as_str(), client_id))
    }

    /// A subscriber of `client_id` with everything else as it comes.
    pub fn new(
        client_id: String,
        share_group: Option<String>,
        topic: String,
        no_local: bool,
        sender: T,
        qos: QoS,
        store: bool,
    ) -> (r: Self)
        ensures
            r == (ClientInfo { client_id, share_group, topic, qos, no_local, store, sender }),
    {
        ClientInfo { client_id, share_group, topic, no_local, sender, qos, store }
    }
}

impl<T: Default> ClientInfo<T> {
    /// A subscriber of `client_id` in `share_group` with no topic, QoS 0, local
    /// delivery, not kept, and a default sender: what a subscriber is compared by.
    pub fn default(client_id: String, share_group: Option<String>) -> (r: Self)
        ensures
            r.client_id == client_id,
            r.share_group == share_group,
            r.topic@ == Seq::<char>::empty(),
            r.qos == QoS::AtMostOnce,
            !r.no_local,
            !r.store,
    {
        ClientInfo {
            client_id,
            share_group,
            topic: String::new(),
            no_local: false,
            sender: T::default(),
            qos: QoS::AtMostOnce,
            store: false,
        }
    }
}

impl<T> PartialEq for ClientInfo<T> {
    fn eq(&self, other: &Self) -> (r: bool) {
        str_eq(self.client_id.as_str(), other.client_id.as_str()) && opt_str_eq(
            &self.share_group,
            &other.share_group,
        )
    }
}

impl<T> PartialEqSpecImpl for ClientInfo<T> {
    open spec fn obeys_eq_spec() -> bool {
        true
    }

    open spec fn eq_spec(&self, other: &Self) -> bool {
        self.client_id@ == other.client_id@ && opt_chars(self.share_group) == opt_chars(
            other.share_group,
        )
    }
}

impl<T> ClientId for ClientInfo<T> {
    open spec fn spec_client_id(&self) -> Seq<char> {
        self.client_id@
    }

    fn client_id(&self) -> (r: &str) {
        self.client_id.as_str()
    }
}

} // verus!
