//! The decisions a client connection makes between packets: how long the client may
//! stay silent, which topic aliases it may set, whether a message for it has
//! expired, and what a message it publishes turns into.
use vstd::prelude::*;

use super::super::protocol::property::{pair_views, user_properties_of, user_property_views, views};
use super::super::protocol::property::PropertyUser;
use super::super::protocol::publish::{Publish, PublishOptions, PublishView};
use super::shared::get_packet_id;
use super::store::{after_insert, store_wf, Store};
use super::super::QoS;
use super::super::retain_trie::RetainedMessage;
use super::super::MqttProtocolVersion;
use crate::operator::command::OperatorCommand;

verus! {

/// The keep alive of a connection, in seconds: the longer of the server's setting and
/// the client's request.
pub fn keep_alive_for(server: u16, client: u16) -> (r: u16)
    ensures
        r == if client > server {
            client
        } else {
            server
        },
{
    if client > server {
        client
    } else {
        server
    }
}

/// Whether a client last heard from at `last_heard` has been silent too long at
/// `now`: more than one and a half keep alives (rounded down) have passed. A keep
/// alive of 0 turns the check off.
pub fn keep_alive_expired(now: u64, last_heard: u64, keep_alive: u16) -> (r: bool)
    ensures
        r == (keep_alive > 0 && now > last_heard + keep_alive * 3 / 2),
{
    let limit: u64 = keep_alive as u64 * 3 / 2;
    keep_alive > 0 && now > last_heard && now - last_heard > limit
}

/// The number of topic aliases a client may set up: what the CONNACK granted, for
/// MQTT 5; none before it.
pub fn alias_maximum_for(version: MqttProtocolVersion, granted: u16) -> (r: u16)
    ensures
        r == if version == MqttProtocolVersion::V5 {
            granted
        } else {
            0
        },
{
    if version == MqttProtocolVersion::V5 {
        granted
    } else {
        0
    }
}

/// Whether a message that expires at `expiry_at` may still go to a client at `now`:
/// one without an expiry (or with expiry 0) always; another only before its expiry.
pub open spec fn deliverable_at(expiry_at: Option<u64>, now: u64) -> bool {
    match expiry_at {
        Some(e) => e == 0 || now < e,
        None => true,
    }
}

/// Whether a message that expires at `expiry_at` may still go to a client at `now`,
/// as `deliverable_at` says.
pub fn deliverable(expiry_at: Option<u64>, now: u64) -> (r: bool)
    ensures
        r == deliverable_at(expiry_at, now),
{
    match expiry_at {
        Some(e) => e == 0 || now < e,
        None => true,
    }
}

/// The request that routes `publish`, received from `client_id`: its flags, topic,
/// payload and user properties, with options that carry only its expiry time.
pub fn route_command(client_id: String, publish: Publish) -> (r: OperatorCommand)
    ensures
        r == (OperatorCommand::Publish {
            client_id,
            retain: publish.retain,
            qos: publish.qos,
            topic: publish.topic,
            payload: publish.payload,
            user_properties: publish.user_properties,
            options: PublishOptions { expiry_at: publish.expiry_at, ..PublishOptions::empty() },
        }),
{
    let options = PublishOptions { expiry_at: publish.expiry_at, ..PublishOptions::default() };
    OperatorCommand::Publish {
        client_id,
        retain: publish.retain,
        qos: publish.qos,
        topic: publish.topic,
        payload: publish.payload,
        user_properties: publish.user_properties,
        options,
    }
}

/// The message that `publish` leaves retained on its topic: its topic, QoS, payload
/// and expiry time, with its user properties as properties.
pub fn retained_of(publish: &Publish) -> (r: RetainedMessage)
    ensures
        r.topic@ == publish.topic@,
        r.qos == publish.qos,
        r.payload@ == publish.payload@,
        views(r.properties@) == user_property_views(pair_views(publish.user_properties@)),
        r.expiry_at == publish.expiry_at,
{
    RetainedMessage {
        topic: publish.topic.clone(),
        qos: publish.qos,
        payload: super::super::protocol::wire::copy_bytes(publish.payload.as_slice()),
        properties: user_properties_of(&publish.user_properties),
        expiry_at: publish.expiry_at,
    }
}

/// The packet identifier that follows `id`, as `get_packet_id` gives it.
pub open spec fn following_id(id: u16) -> u16 {
    if id == u16::MAX {
        1
    } else {
        (id + 1) as u16
    }
}

/// The PUBLISH that takes a message to the client: not a duplicate, with no topic
/// alias or expiry, carrying the subscription identifier of the options.
pub open spec fn outgoing_view(
    topic: Seq<char>,
    qos: QoS,
    retain: bool,
    payload: Seq<u8>,
    user_properties: Seq<(Seq<char>, Seq<char>)>,
    subscription_identifier: Option<u32>,
    packet_id: Option<u16>,
) -> PublishView {
    PublishView {
        dup: false,
        qos,
        retain,
        topic,
        payload,
        topic_alias: None,
        packet_id,
        expiry_at: None,
        subscription_identifier,
        user_properties,
    }
}

/// What a connection does at `now` with a message that the broker hands it for its
/// client, `last_id` being the last packet identifier it used. An expired message is
/// dropped. A QoS 0 message is sent as it is. A QoS 1 or 2 message takes the next
/// packet identifier and goes in flight: it is sent now when there is room in
/// flight, and otherwise waits. Gives the PUBLISH to send now, if any, and the last
/// packet identifier used.
pub fn outgoing_publish(
    store: &mut Store,
    last_id: u16,
    topic: String,
    qos: QoS,
    retain: bool,
    payload: Vec<u8>,
    user_properties: Vec<PropertyUser>,
    options: PublishOptions,
    now: u64,
) -> (r: (Option<Publish>, u16))
    ensures
        !deliverable_at(options.expiry_at, now) ==> r.0 is None && r.1 == last_id && final(store)@
            == old(store)@,
        deliverable_at(options.expiry_at, now) && qos == QoS::AtMostOnce ==> {
            &&& r.1 == last_id
            &&& final(store)@ == old(store)@
            &&& r.0 matches Some(p) && p@ == outgoing_view(
                topic@,
                qos,
                retain,
                payload@,
                pair_views(user_properties@),
                options.subscription_identifier,
                None,
            )
        },
        deliverable_at(options.expiry_at, now) && qos != QoS::AtMostOnce ==> {
            let v = outgoing_view(
                topic@,
                qos,
                retain,
                payload@,
                pair_views(user_properties@),
                options.subscription_identifier,
                Some(following_id(last_id)),
            );
            &&& r.1 == following_id(last_id)
            &&& final(store)@ == after_insert(old(store)@, v, now)
            &&& (r.0 is Some <==> old(store)@.inflight.len() < old(store)@.inflight_size)
            &&& (r.0 matches Some(p) ==> p@ == v)
        },
        store_wf(old(store)@) ==> store_wf(final(store)@),
{
    if !deliverable(options.expiry_at, now) {
        return (None, last_id);
    }
    if qos == QoS::AtMostOnce {
        let p = Publish::new(false, qos, retain, topic, None, payload, user_properties)
            .with_subscription_identifier(options.subscription_identifier);
        return (Some(p), last_id);
    }
    let id = get_packet_id(last_id);
    let p = Publish::new(false, qos, retain, topic, Some(id), payload, user_properties)
        .with_subscription_identifier(options.subscription_identifier);
    let ghost v = p@;
    let sent = store.inflight_insert_at(p.clone(), now);
    assert(store@ == after_insert(old(store)@, v, now));
    if sent {
        (Some(p), id)
    } else {
        (None, id)
    }
}

} // verus!
