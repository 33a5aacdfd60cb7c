//! Event channels: pairs of ports through which two Domains wake each other.
//!
//! The order and the limits of delivery are chosen here; callers rely only on an event
//! reaching the other end of its channel.

use vstd::prelude::*;

use crate::domain::DomainId;

verus! {

pub const MAX_EVENT_CHANNELS: usize = 64;

#[derive(Clone, Copy, Debug, PartialEq, Eq, Structural)]
pub enum EventError {
    InvalidEndpoint,
    PortInUse,
    TableFull,
    UnknownPort,
}

/// One side of a channel.
#[derive(Clone, Copy, Debug, PartialEq, Eq, Structural)]
pub struct Endpoint {
    pub domain: DomainId,
    pub port: u32,
    /// An event waits here.
    pub pending: bool,
    /// An event has been here before.
    pub reached: bool,
}

#[derive(Clone, Copy, Debug, PartialEq, Eq, Structural)]
pub struct EventChannel {
    pub a: Endpoint,
    pub b: Endpoint,
}

/// Where an event went.
#[derive(Clone, Copy, Debug, PartialEq, Eq, Structural)]
pub struct EventDelivery {
    pub domain: DomainId,
    pub port: u32,
    pub first_delivery: bool,
}

pub struct EventChannelTable {
    channels: Vec<EventChannel>,
}

impl View for EventChannelTable {
    type V = Seq<EventChannel>;

    closed spec fn view(&self) -> Seq<EventChannel> {
        self.channels@
    }
}

pub open spec fn is_port(e: Endpoint, domain: DomainId, port: u32) -> bool {
    e.domain == domain && e.port == port
}

pub open spec fn has_port(c: EventChannel, domain: DomainId, port: u32) -> bool {
    is_port(c.a, domain, port) || is_port(c.b, domain, port)
}

/// The first channel from `from` on that has the port, or the length.
pub open spec fn channel_of(s: Seq<EventChannel>, domain: DomainId, port: u32, from: int) -> int
    decreases s.len() - from,
{
    if from >= s.len() || has_port(s[from], domain, port) {
        from
    } else {
        channel_of(s, domain, port, from + 1)
    }
}

/// An event waits at this side for the Domain.
pub open spec fn waits(e: Endpoint, domain: DomainId) -> bool {
    e.domain == domain && e.pending
}

pub open spec fn has_event(c: EventChannel, domain: DomainId) -> bool {
    waits(c.a, domain) || waits(c.b, domain)
}

/// The first channel from `from` on with an event for the Domain, or the length.
pub open spec fn event_of(s: Seq<EventChannel>, domain: DomainId, from: int) -> int
    decreases s.len() - from,
{
    if from >= s.len() || has_event(s[from], domain) {
        from
    } else {
        event_of(s, domain, from + 1)
    }
}

pub open spec fn fresh_endpoint(domain: DomainId, port: u32) -> Endpoint {
    Endpoint { domain, port, pending: false, reached: false }
}

pub open spec fn with_event(e: Endpoint) -> Endpoint {
    Endpoint { pending: true, reached: true, ..e }
}

pub open spec fn without_event(e: Endpoint) -> Endpoint {
    Endpoint { pending: false, ..e }
}

/// The side of the channel that is across from the port.
pub open spec fn peer_of(c: EventChannel, domain: DomainId, port: u32) -> Endpoint {
    if is_port(c.a, domain, port) {
        c.b
    } else {
        c.a
    }
}

/// The channel with an event across from the port.
pub open spec fn signalled(c: EventChannel, domain: DomainId, port: u32) -> EventChannel {
    if is_port(c.a, domain, port) {
        EventChannel { b: with_event(c.b), ..c }
    } else {
        EventChannel { a: with_event(c.a), ..c }
    }
}

/// The channel without the event that waited for the Domain.
pub open spec fn collected(c: EventChannel, domain: DomainId) -> EventChannel {
    if waits(c.a, domain) {
        EventChannel { a: without_event(c.a), ..c }
    } else {
        EventChannel { b: without_event(c.b), ..c }
    }
}

/// Why two ports cannot be connected.
pub open spec fn connect_error(
    s: Seq<EventChannel>,
    domain_a: DomainId,
    port_a: u32,
    domain_b: DomainId,
    port_b: u32,
) -> Option<EventError> {
    if domain_a.value == 0 || domain_b.value == 0 || domain_a == domain_b {
        Some(EventError::InvalidEndpoint)
    } else if channel_of(s, domain_a, port_a, 0) < s.len() || channel_of(s, domain_b, port_b, 0)
        < s.len() {
        Some(EventError::PortInUse)
    } else if s.len() >= MAX_EVENT_CHANNELS {
        Some(EventError::TableFull)
    } else {
        None
    }
}

pub open spec fn uses_domain(c: EventChannel, domain: DomainId) -> bool {
    c.a.domain == domain || c.b.domain == domain
}

/// The channels that do not end in the Domain.
pub open spec fn without_domain(s: Seq<EventChannel>, domain: DomainId) -> Seq<EventChannel> {
    s.filter(|c: EventChannel| !uses_domain(c, domain))
}

proof fn lemma_channel_of(s: Seq<EventChannel>, domain: DomainId, port: u32, from: int)
    requires
        0 <= from <= s.len(),
    ensures
        from <= channel_of(s, domain, port, from) <= s.len(),
        channel_of(s, domain, port, from) < s.len() ==> has_port(
            s[channel_of(s, domain, port, from)],
            domain,
            port,
        ),
    decreases s.len() - from,
{
    if from < s.len() && !has_port(s[from], domain, port) {
        lemma_channel_of(s, domain, port, from + 1);
    }
}

proof fn lemma_event_of(s: Seq<EventChannel>, domain: DomainId, from: int)
    requires
        0 <= from <= s.len(),
    ensures
        from <= event_of(s, domain, from) <= s.len(),
        event_of(s, domain, from) < s.len() ==> has_event(s[event_of(s, domain, from)], domain),
        forall|i: int|
            from <= i < event_of(s, domain, from) ==> !has_event(#[trigger] s[i], domain),
    decreases s.len() - from,
{
    if from < s.len() && !has_event(s[from], domain) {
        lemma_event_of(s, domain, from + 1);
    }
}

impl EventChannelTable {
    pub open spec fn wf(self) -> bool {
        &&& self@.len() <= MAX_EVENT_CHANNELS
        &&& forall|i: int|
            0 <= i < self@.len() ==> (#[trigger] self@[i]).a.domain != self@[i].b.domain
    }

    pub fn new() -> (r: Self)
        ensures
            r.wf(),
            r@ == Seq::<EventChannel>::empty(),
    {
        EventChannelTable { channels: Vec::new() }
    }

    fn find(&self, domain: DomainId, port: u32) -> (r: usize)
        ensures
            r == channel_of(self@, domain, port, 0),
            r <= self@.len(),
            r < self@.len() ==> has_port(self@[r as int], domain, port),
    {
        let mut i: usize = 0;
        while i < self.channels.len()
            invariant
                i <= self.channels.len(),
                self.channels@ == self@,
                channel_of(self@, domain, port, 0) == channel_of(self@, domain, port, i as int),
            decreases self.channels.len() - i,
        {
            let c = self.channels[i];
            if c.a.domain == domain && c.a.port == port || c.b.domain == domain && c.b.port
                == port {
                return i;
            }
            i += 1;
        }
        i
    }

    fn find_event(&self, domain: DomainId) -> (r: usize)
        ensures
            r == event_of(self@, domain, 0),
            r <= self@.len(),
            r < self@.len() ==> has_event(self@[r as int], domain),
    {
        let mut i: usize = 0;
        while i < self.channels.len()
            invariant
                i <= self.channels.len(),
                self.channels@ == self@,
                event_of(self@, domain, 0) == event_of(self@, domain, i as int),
            decreases self.channels.len() - i,
        {
            let c = self.channels[i];
            if c.a.domain == domain && c.a.pending || c.b.domain == domain && c.b.pending {
                return i;
            }
            i += 1;
        }
        i
    }

    /// Connects a port of one Domain with a port of another.
    pub fn connect(
        &mut self,
        domain_a: DomainId,
        port_a: u32,
        domain_b: DomainId,
        port_b: u32,
    ) -> (r: Result<(), EventError>)
        requires
            old(self).wf(),
        ensures
            final(self).wf(),
            match connect_error(old(self)@, domain_a, port_a, domain_b, port_b) {
                Some(e) => r == Err::<(), EventError>(e) && final(self)@ == old(self)@,
                None => r == Ok::<(), EventError>(()) && final(self)@ == old(self)@.push(
                    EventChannel {
                        a: fresh_endpoint(domain_a, port_a),
                        b: fresh_endpoint(domain_b, port_b),
                    },
                ),
            },
    {
        if domain_a.value == 0 || domain_b.value == 0 || domain_a == domain_b {
            return Err(EventError::InvalidEndpoint);
        }
        if self.find(domain_a, port_a) < self.channels.len() || self.find(domain_b, port_b)
            < self.channels.len() {
            return Err(EventError::PortInUse);
        }
        if self.channels.len() >= MAX_EVENT_CHANNELS {
            return Err(EventError::TableFull);
        }
        self.channels.push(
            EventChannel {
                a: Endpoint { domain: domain_a, port: port_a, pending: false, reached: false },
                b: Endpoint { domain: domain_b, port: port_b, pending: false, reached: false },
            },
        );
        Ok(())
    }

    /// Leaves an event across from the port.
    pub fn send(&mut self, sender: DomainId, port: u32) -> (r: Result<EventDelivery, EventError>)
        requires
            old(self).wf(),
        ensures
            final(self).wf(),
            ({
                let i = channel_of(old(self)@, sender, port, 0);
                if i >= old(self)@.len() {
                    &&& r == Err::<EventDelivery, EventError>(EventError::UnknownPort)
                    &&& final(self)@ == old(self)@
                } else {
                    let peer = peer_of(old(self)@[i], sender, port);
                    &&& r == Ok::<EventDelivery, EventError>(
                        EventDelivery {
                            domain: peer.domain,
                            port: peer.port,
                            first_delivery: !peer.reached,
                        },
                    )
                    &&& final(self)@ == old(self)@.update(
                        i,
                        signalled(old(self)@[i], sender, port),
                    )
                }
            }),
    {
        let i: usize = self.find(sender, port);
        if i >= self.channels.len() {
            return Err(EventError::UnknownPort);
        }
        let mut c = self.channels[i];
        let peer = if c.a.domain == sender && c.a.port == port {
            let peer = c.b;
            c.b.pending = true;
            c.b.reached = true;
            peer
        } else {
            let peer = c.a;
            c.a.pending = true;
            c.a.reached = true;
            peer
        };
        self.channels[i] = c;
        assert(self@ =~= old(self)@.update(i as int, c));
        Ok(
            EventDelivery {
                domain: peer.domain,
                port: peer.port,
                first_delivery: !peer.reached,
            },
        )
    }

    /// Takes an event of the Domain and gives the port at which it waited.
    pub fn receive(&mut self, domain: DomainId) -> (r: Option<u32>)
        requires
            old(self).wf(),
        ensures
            final(self).wf(),
            ({
                let i = event_of(old(self)@, domain, 0);
                if i >= old(self)@.len() {
                    r is None && final(self)@ == old(self)@
                } else {
                    let c = old(self)@[i];
                    &&& r == Some(
                        if waits(c.a, domain) {
                            c.a.port
                        } else {
                            c.b.port
                        },
                    )
                    &&& final(self)@ == old(self)@.update(i, collected(c, domain))
                }
            }),
    {
        let i: usize = self.find_event(domain);
        if i >= self.channels.len() {
            return None;
        }
        let mut c = self.channels[i];
        let port: u32 = if c.a.domain == domain && c.a.pending {
            c.a.pending = false;
            c.a.port
        } else {
            c.b.pending = false;
            c.b.port
        };
        self.channels[i] = c;
        assert(self@ =~= old(self)@.update(i as int, c));
        Some(port)
    }

    pub fn has_pending(&self, domain: DomainId) -> (r: bool)
        ensures
            r == (event_of(self@, domain, 0) < self@.len()),
    {
        self.find_event(domain) < self.channels.len()
    }

    /// Removes every channel that ends in the Domain and gives their number.
    pub fn disconnect_domain(&mut self, domain: DomainId) -> (r: usize)
        requires
            old(self).wf(),
        ensures
            final(self).wf(),
            final(self)@ == without_domain(old(self)@, domain),
            r == old(self)@.len() - final(self)@.len(),
    {
        let ghost before = self.channels@;
        let ghost kept = |c: EventChannel| !uses_domain(c, domain);
        let mut rest: Vec<EventChannel> = Vec::new();
        let mut i: usize = 0;
        while i < self.channels.len()
            invariant
                i <= self.channels.len(),
                self.channels@ == before,
                before.len() <= MAX_EVENT_CHANNELS,
                forall|j: int|
                    0 <= j < before.len() ==> (#[trigger] before[j]).a.domain != before[j].b.domain,
                kept == (|c: EventChannel| !uses_domain(c, domain)),
                rest@ == before.take(i as int).filter(kept),
                rest@.len() <= i,
                forall|j: int|
                    0 <= j < rest@.len() ==> (#[trigger] rest@[j]).a.domain != rest@[j].b.domain,
            decreases self.channels.len() - i,
        {
            let c = self.channels[i];
            proof {
                assert(before.take(i + 1) =~= before.take(i as int).push(before[i as int]));
                reveal(Seq::filter);
                assert(before.take(i + 1).drop_last() =~= before.take(i as int));
            }
            if c.a.domain != domain && c.b.domain != domain {
                rest.push(c);
            }
            i += 1;
        }
        assert(before.take(i as int) =~= before);
        let removed: usize = self.channels.len() - rest.len();
        self.channels = rest;
        removed
    }
}

impl Default for EventChannelTable {
    fn default() -> (r: Self)
        ensures
            r.wf(),
            r@ == Seq::<EventChannel>::empty(),
    {
        EventChannelTable::new()
    }
}

/// An event that is sent waits for the Domain across, which then receives one, and
/// what it receives had waited for it.
pub proof fn law_sent_event_waits_for_its_receiver(
    s: Seq<EventChannel>,
    sender: DomainId,
    port: u32,
)
    requires
        channel_of(s, sender, port, 0) < s.len(),
    ensures
        ({
            let i = channel_of(s, sender, port, 0);
            let sent = s.update(i, signalled(s[i], sender, port));
            let receiver = peer_of(s[i], sender, port).domain;
            event_of(sent, receiver, 0) <= i && has_event(
                sent[event_of(sent, receiver, 0)],
                receiver,
            )
        }),
{
    lemma_channel_of(s, sender, port, 0);
    let i = channel_of(s, sender, port, 0);
    let sent = s.update(i, signalled(s[i], sender, port));
    let receiver = peer_of(s[i], sender, port).domain;
    lemma_event_of(sent, receiver, 0);
    assert(has_event(sent[i], receiver));
}

/// Where nothing else waited for the receiver, it receives exactly the event that
/// was sent, and then nothing waits for it.
pub proof fn law_lone_event_is_received_once(s: Seq<EventChannel>, sender: DomainId, port: u32)
    requires
        channel_of(s, sender, port, 0) < s.len(),
        forall|i: int| 0 <= i < s.len() ==> (#[trigger] s[i]).a.domain != s[i].b.domain,
        ({
            let receiver = peer_of(s[channel_of(s, sender, port, 0)], sender, port).domain;
            event_of(s, receiver, 0) >= s.len()
        }),
    ensures
        ({
            let i = channel_of(s, sender, port, 0);
            let peer = peer_of(s[i], sender, port);
            let sent = s.update(i, signalled(s[i], sender, port));
            let j = event_of(sent, peer.domain, 0);
            let received = if waits(sent[j].a, peer.domain) {
                sent[j].a.port
            } else {
                sent[j].b.port
            };
            &&& j == i
            &&& received == peer.port
            &&& event_of(sent.update(j, collected(sent[j], peer.domain)), peer.domain, 0)
                >= s.len()
        }),
{
    lemma_channel_of(s, sender, port, 0);
    let i = channel_of(s, sender, port, 0);
    let peer = peer_of(s[i], sender, port);
    let sent = s.update(i, signalled(s[i], sender, port));
    lemma_event_of(s, peer.domain, 0);
    lemma_event_of(sent, peer.domain, 0);
    assert(has_event(sent[i], peer.domain));
    let j = event_of(sent, peer.domain, 0);
    if j < i {
        assert(sent[j] == s[j]);
        assert(!has_event(s[j], peer.domain));
    }
    assert(!has_event(s[i], peer.domain));
    let rest = sent.update(j, collected(sent[j], peer.domain));
    lemma_event_of(rest, peer.domain, 0);
    let k = event_of(rest, peer.domain, 0);
    if k < rest.len() {
        if k != i {
            assert(rest[k] == s[k]);
            assert(!has_event(s[k], peer.domain));
        }
    }
}

/// A Domain whose channels were removed can neither send nor receive.
pub proof fn law_disconnected_domain_is_silent(s: Seq<EventChannel>, domain: DomainId, port: u32)
    ensures
        ({
            let rest = without_domain(s, domain);
            &&& channel_of(rest, domain, port, 0) >= rest.len()
            &&& event_of(rest, domain, 0) >= rest.len()
        }),
{
    let rest = without_domain(s, domain);
    let kept = |c: EventChannel| !uses_domain(c, domain);
    lemma_channel_of(rest, domain, port, 0);
    lemma_event_of(rest, domain, 0);
    let i = channel_of(rest, domain, port, 0);
    if i < rest.len() {
        s.lemma_filter_pred(kept, i);
    }
    let j = event_of(rest, domain, 0);
    if j < rest.len() {
        s.lemma_filter_pred(kept, j);
    }
}

/// An event that is sent from one end of a channel waits at the other end, whichever of
/// the two it is, and nothing else of the channel changes.
pub proof fn law_event_goes_to_the_other_end(c: EventChannel, domain: DomainId, port: u32)
    ensures
        c.a.domain == domain && c.a.port == port ==> peer_of(c, domain, port) == c.b && signalled(
            c,
            domain,
            port,
        ).a == c.a && signalled(c, domain, port).b == (Endpoint {
            domain: c.b.domain,
            port: c.b.port,
            pending: true,
            reached: true,
        }),
        c.b.domain == domain && c.b.port == port && !(c.a.domain == domain && c.a.port == port)
            ==> peer_of(c, domain, port) == c.a && signalled(c, domain, port).b == c.b && signalled(
            c,
            domain,
            port,
        ).a == (Endpoint {
            domain: c.a.domain,
            port: c.a.port,
            pending: true,
            reached: true,
        }),
{
}

/// The channel of a port is the first one that has the port at one of its ends, and
/// there is none exactly where no channel has it.
pub proof fn law_port_is_looked_up_exactly(s: Seq<EventChannel>, domain: DomainId, port: u32)
    ensures
        0 <= channel_of(s, domain, port, 0) <= s.len(),
        channel_of(s, domain, port, 0) < s.len() ==> {
            let c = s[channel_of(s, domain, port, 0)];
            c.a.domain == domain && c.a.port == port || c.b.domain == domain && c.b.port == port
        },
        forall|i: int|
            0 <= i < channel_of(s, domain, port, 0) ==> !((#[trigger] s[i]).a.domain == domain
                && s[i].a.port == port) && !(s[i].b.domain == domain && s[i].b.port == port),
{
    lemma_channel_of(s, domain, port, 0);
    lemma_channels_before(s, domain, port, 0);
}

proof fn lemma_channels_before(s: Seq<EventChannel>, domain: DomainId, port: u32, from: int)
    requires
        0 <= from <= s.len(),
    ensures
        forall|i: int|
            from <= i < channel_of(s, domain, port, from) ==> !has_port(
                #[trigger] s[i],
                domain,
                port,
            ),
    decreases s.len() - from,
{
    if from < s.len() && !has_port(s[from], domain, port) {
        lemma_channels_before(s, domain, port, from + 1);
    }
}

/// What a Domain receives is an event that waits at one of its own ends; taking it clears
/// that end alone and keeps that an event was there. There is nothing to receive exactly
/// where none of its ends has an event.
pub proof fn law_received_event_is_the_domains_own(s: Seq<EventChannel>, domain: DomainId)
    ensures
        0 <= event_of(s, domain, 0) <= s.len(),
        event_of(s, domain, 0) == s.len() <==> forall|i: int|
            0 <= i < s.len() ==> !((#[trigger] s[i]).a.domain == domain && s[i].a.pending) && !(
            s[i].b.domain == domain && s[i].b.pending),
        event_of(s, domain, 0) < s.len() ==> {
            let c = s[event_of(s, domain, 0)];
            let after = collected(c, domain);
            if c.a.domain == domain && c.a.pending {
                &&& after.b == c.b
                &&& after.a == (Endpoint {
                    domain: c.a.domain,
                    port: c.a.port,
                    pending: false,
                    reached: c.a.reached,
                })
            } else {
                &&& c.b.domain == domain && c.b.pending
                &&& after.a == c.a
                &&& after.b == (Endpoint {
                    domain: c.b.domain,
                    port: c.b.port,
                    pending: false,
                    reached: c.b.reached,
                })
            }
        },
{
    lemma_event_of(s, domain, 0);
    let i = event_of(s, domain, 0);
    if i < s.len() {
        assert(has_event(s[i], domain));
    }
    assert forall|k: int| 0 <= k < i implies !has_event(#[trigger] s[k], domain) by {}
}

/// Two ports are connected exactly where they belong to two different Domains, neither of
/// which is mBoot, both are free and fewer than 64 channels exist.
pub proof fn law_connection_is_refused_only_for_cause(
    s: Seq<EventChannel>,
    domain_a: DomainId,
    port_a: u32,
    domain_b: DomainId,
    port_b: u32,
)
    ensures
        connect_error(s, domain_a, port_a, domain_b, port_b) is None <==> domain_a.value != 0
            && domain_b.value != 0 && domain_a != domain_b && s.len() < 64 && forall|i: int|
            0 <= i < s.len() ==> !is_port((#[trigger] s[i]).a, domain_a, port_a) && !is_port(
                s[i].b,
                domain_a,
                port_a,
            ) && !is_port(s[i].a, domain_b, port_b) && !is_port(s[i].b, domain_b, port_b),
        domain_a.value == 0 || domain_b.value == 0 || domain_a == domain_b ==> connect_error(
            s,
            domain_a,
            port_a,
            domain_b,
            port_b,
        ) == Some(EventError::InvalidEndpoint),
        !fresh_endpoint(domain_a, port_a).pending && !fresh_endpoint(domain_a, port_a).reached
            && fresh_endpoint(domain_a, port_a).domain == domain_a && fresh_endpoint(
            domain_a,
            port_a,
        ).port == port_a,
{
    law_port_is_looked_up_exactly(s, domain_a, port_a);
    law_port_is_looked_up_exactly(s, domain_b, port_b);
    let i = channel_of(s, domain_a, port_a, 0);
    let j = channel_of(s, domain_b, port_b, 0);
    if i < s.len() {
        assert(has_port(s[i], domain_a, port_a));
    }
    if j < s.len() {
        assert(has_port(s[j], domain_b, port_b));
    }
}

/// Disconnecting a Domain takes away every channel that ends in it and no other.
pub proof fn law_disconnection_takes_its_channels_alone(
    s: Seq<EventChannel>,
    domain: DomainId,
    c: EventChannel,
)
    ensures
        without_domain(s, domain).contains(c) <==> s.contains(c) && c.a.domain != domain
            && c.b.domain != domain,
{
    let kept = |c: EventChannel| !uses_domain(c, domain);
    let rest = s.filter(kept);
    if rest.contains(c) {
        let i = choose|i: int| 0 <= i < rest.len() && rest[i] == c;
        s.lemma_filter_pred(kept, i);
        s.lemma_filter_contains_rev(kept, c);
    }
    if s.contains(c) && kept(c) {
        let i = choose|i: int| 0 <= i < s.len() && s[i] == c;
        s.lemma_filter_contains(kept, i);
    }
}

} // verus!
