//! Events for plugins: subscriptions that end when they are given up, and events as text.

use vstd::prelude::*;
use vstd::utf8::*;
use crate::runtime::events;
use crate::runtime::events::{tau_event_emit, tau_event_subscribe, tau_event_unsubscribe, Call, EventBus};
use crate::runtime::executor::{current_plugin_id, PluginIds};
use crate::text::utf8_text;
use crate::tokio::io::append_bytes;

verus! {

/// A subscription; 0 is none.
pub struct Subscription {
    pub handle: u64,
}

/// Subscribes to a channel on behalf of the current plugin.
pub fn subscribe_raw<C>(bus: &mut EventBus<C>, ids: &PluginIds, channel: &str, callback: C) -> (r: Subscription)
    requires
        old(bus).wf(),
        old(bus).next < u64::MAX,
    ensures
        final(bus).wf(),
        r.handle == old(bus).next,
        final(bus).next == old(bus).next + 1,
        final(bus).subs@.len() == old(bus).subs@.len() + 1,
        final(bus).subs@.drop_last() == old(bus).subs@,
        final(bus).subs@.last().channel@ == channel@,
        final(bus).subs@.last().id == r.handle,
        final(bus).subs@.last().plugin_id == ids.current,
        final(bus).subs@.last().callback == callback,
{
    let plugin_id: u64 = current_plugin_id(ids);
    let handle: u64 = tau_event_subscribe(bus, channel, callback, plugin_id);
    Subscription { handle }
}

impl Subscription {
    /// Ends the subscription. Its callback is to be dropped.
    pub fn release<C>(self, bus: &mut EventBus<C>) -> (r: Option<events::Subscription<C>>)
        requires
            old(bus).wf(),
        ensures
            final(bus).wf(),
            final(bus).next == old(bus).next,
            r is None ==> final(bus).subs@ == old(bus).subs@,
            forall|i: int|
                0 <= i < old(bus).subs@.len() && (#[trigger] old(bus).subs@[i]).id == self.handle ==> final(bus).subs@ == old(bus).subs@.remove(i) && r == Some(old(bus).subs@[i]),
            r is Some ==> exists|i: int| 0 <= i < old(bus).subs@.len() && (#[trigger] old(bus).subs@[i]).id == self.handle,
    {
        if self.handle != 0 {
            tau_event_unsubscribe(bus, self.handle)
        } else {
            None
        }
    }
}

/// An event: who is to be called, with these bytes.
pub struct Emission<C> {
    pub calls: Vec<Call<C>>,
    pub data: Vec<u8>,
}

/// Emits bytes. The number of calls is what the emitter is told.
pub fn emit_raw<C: Copy>(bus: &EventBus<C>, channel: &str, data: &[u8]) -> (r: Emission<C>)
    ensures
        r.calls@ == events::calls_for(bus.subs@, channel@),
        r.data@ == data@,
{
    let mut bytes: Vec<u8> = Vec::new();
    append_bytes(&mut bytes, data);
    assert(bytes@ =~= data@);
    Emission { calls: tau_event_emit(bus, channel), data: bytes }
}

/// Emits text.
pub fn emit_str<C: Copy>(bus: &EventBus<C>, channel: &str, msg: &str) -> (r: Emission<C>)
    ensures
        r.calls@ == events::calls_for(bus.subs@, channel@),
        r.data@ == encode_utf8(msg@),
{
    emit_raw(bus, channel, msg.as_bytes())
}

/// What a subscriber to text is handed where the bytes are no text.
pub const INVALID_TEXT: &'static str = "<invalid utf8>";

/// What the bytes of an event say, to a subscriber to text.
pub open spec fn text_of(data: Seq<u8>) -> Seq<char> {
    if valid_utf8(data) {
        decode_utf8(data)
    } else {
        INVALID_TEXT@
    }
}

/// The bytes of an event as text.
pub fn event_text(data: Vec<u8>) -> (r: String)
    ensures
        r@ == text_of(data@),
{
    match utf8_text(data) {
        Some(s) => s,
        None => INVALID_TEXT.to_owned(),
    }
}

/// Subscribes to text on behalf of the current plugin. Each event is handed on as text.
pub fn subscribe_str<C>(bus: &mut EventBus<C>, ids: &PluginIds, channel: &str, callback: C) -> (r: Subscription)
    requires
        old(bus).wf(),
        old(bus).next < u64::MAX,
    ensures
        final(bus).wf(),
        r.handle == old(bus).next,
        final(bus).next == old(bus).next + 1,
        final(bus).subs@.len() == old(bus).subs@.len() + 1,
        final(bus).subs@.drop_last() == old(bus).subs@,
        final(bus).subs@.last().channel@ == channel@,
        final(bus).subs@.last().id == r.handle,
        final(bus).subs@.last().plugin_id == ids.current,
        final(bus).subs@.last().callback == callback,
{
    subscribe_raw(bus, ids, channel, callback)
}

/// What is emitted as text is received as that text.
pub proof fn text_arrives_as_it_was_sent(msg: Seq<char>)
    ensures
        text_of(encode_utf8(msg)) == msg,
{
    encode_utf8_valid_utf8(msg);
    encode_utf8_decode_utf8(msg);
}

} // verus!
