//! The message fabric: a registry of endpoints, each with a bounded queue in
//! either direction, and the tick that fans published messages out.
//!
//! The fabric owns every queue. A node holds a `NetworkConnection`, which
//! names its endpoint, and reaches its two queues through the fabric.

use crate::block::{Block, BlockView};
use uuid::Uuid;
use vstd::prelude::*;

verus! {

/// The name of an endpoint: the 128 bits of a UUID.
pub type ConnectionId = u128;

/// How many messages a queue holds before it is full.
pub const CHANNEL_CAPACITY: usize = 32;

/// What a message carries.
#[derive(Debug)]
pub enum NetworkMessageData {
    PublishBlock(Block),
}

/// What a message carries, as plain values.
pub enum NetworkMessageDataView {
    PublishBlock(BlockView),
}

impl View for NetworkMessageData {
    type V = NetworkMessageDataView;

    open spec fn view(&self) -> NetworkMessageDataView {
        match self {
            NetworkMessageData::PublishBlock(block) => NetworkMessageDataView::PublishBlock(block@),
        }
    }
}

impl Clone for NetworkMessageData {
    fn clone(&self) -> (copy: Self)
        ensures
            copy@ == self@,
    {
        match self {
            NetworkMessageData::PublishBlock(block) => NetworkMessageData::PublishBlock(
                block.clone(),
            ),
        }
    }
}

/// A message on its way through the fabric, with the endpoint that sent it.
#[derive(Debug)]
pub struct NetworkMessage {
    pub sender: ConnectionId,
    pub data: NetworkMessageData,
}

/// A message as plain values.
pub struct NetworkMessageView {
    pub sender: ConnectionId,
    pub data: NetworkMessageDataView,
}

impl View for NetworkMessage {
    type V = NetworkMessageView;

    open spec fn view(&self) -> NetworkMessageView {
        NetworkMessageView { sender: self.sender, data: self.data@ }
    }
}

impl Clone for NetworkMessage {
    fn clone(&self) -> (copy: Self)
        ensures
            copy@ == self@,
    {
        NetworkMessage { sender: self.sender, data: self.data.clone() }
    }
}

/// Why a queue operation did nothing.
#[derive(Debug)]
pub enum NetworkError {
    Error(String),
    NoMessagesToReceive,
    Failed,
}

/// Draws a version-4 UUID with `Uuid::new_v4` and returns its 128 bits
/// (`Uuid::as_u128`). The value is random; what holds of every draw is the
/// version nibble (4) and the variant bits (binary 10).
#[verifier::external_body]
fn fresh_connection_id() -> (id: ConnectionId)
    ensures
        id & 0xF000_C000_0000_0000_0000u128 == 0x4000_8000_0000_0000_0000u128,
{
    Uuid::new_v4().as_u128()
}

/// The views of the messages of a queue, in order.
pub open spec fn queue_view(queue: Seq<NetworkMessage>) -> Seq<NetworkMessageView> {
    queue.map_values(|message: NetworkMessage| message@)
}

/// One registered endpoint: the two queues of a connection.
#[derive(Debug)]
pub struct NetworkEndpoint {
    id: ConnectionId,
    inbound: Vec<NetworkMessage>,
    outbound: Vec<NetworkMessage>,
    closed: bool,
}

/// An endpoint as plain values. `inbound` runs from the fabric to the node,
/// `outbound` from the node to the fabric; the oldest message comes first.
pub struct NetworkEndpointView {
    pub id: ConnectionId,
    pub inbound: Seq<NetworkMessageView>,
    pub outbound: Seq<NetworkMessageView>,
    pub closed: bool,
}

impl View for NetworkEndpoint {
    type V = NetworkEndpointView;

    closed spec fn view(&self) -> NetworkEndpointView {
        NetworkEndpointView {
            id: self.id,
            inbound: queue_view(self.inbound@),
            outbound: queue_view(self.outbound@),
            closed: self.closed,
        }
    }
}

/// An endpoint under `id` is registered.
pub open spec fn registered(net: Seq<NetworkEndpointView>, id: ConnectionId) -> bool {
    exists|i: int| 0 <= i < net.len() && #[trigger] net[i].id == id
}

/// The place of the endpoint registered under `id`.
pub open spec fn index_of(net: Seq<NetworkEndpointView>, id: ConnectionId) -> int {
    choose|i: int| 0 <= i < net.len() && #[trigger] net[i].id == id
}

/// The endpoint registered under `id`.
pub open spec fn endpoint(net: Seq<NetworkEndpointView>, id: ConnectionId) -> NetworkEndpointView {
    net[index_of(net, id)]
}

/// What every registry satisfies: no identifier is registered twice, no
/// queue holds more than its capacity, and each message waiting in an
/// endpoint's outbound queue names that endpoint as its sender.
pub open spec fn network_wf(net: Seq<NetworkEndpointView>) -> bool {
    &&& forall|i: int, j: int| 0 <= i < j < net.len() ==> net[i].id != net[j].id
    &&& forall|i: int|
        0 <= i < net.len() ==> (#[trigger] net[i]).inbound.len() <= CHANNEL_CAPACITY
            && net[i].outbound.len() <= CHANNEL_CAPACITY
    &&& forall|i: int, k: int|
        0 <= i < net.len() && 0 <= k < net[i].outbound.len() ==> (
        #[trigger] net[i].outbound[k]).sender == net[i].id
}

/// An endpoint that was just connected: both queues empty, not closed.
pub open spec fn fresh_endpoint(id: ConnectionId) -> NetworkEndpointView {
    NetworkEndpointView { id, inbound: Seq::empty(), outbound: Seq::empty(), closed: false }
}

/// The registry after connecting under `id`: a fresh endpoint at the end, or,
/// should `id` be registered already, in the place of the one it names.
pub open spec fn after_connect(net: Seq<NetworkEndpointView>, id: ConnectionId) -> Seq<
    NetworkEndpointView,
> {
    if registered(net, id) {
        net.update(index_of(net, id), fresh_endpoint(id))
    } else {
        net.push(fresh_endpoint(id))
    }
}

/// A message can be sent from `id`: the endpoint is registered, open, and its
/// outbound queue is not full.
pub open spec fn can_send(net: Seq<NetworkEndpointView>, id: ConnectionId) -> bool {
    &&& registered(net, id)
    &&& !endpoint(net, id).closed
    &&& endpoint(net, id).outbound.len() < CHANNEL_CAPACITY
}

/// The registry after `id` has sent `data`.
pub open spec fn after_send(
    net: Seq<NetworkEndpointView>,
    id: ConnectionId,
    data: NetworkMessageDataView,
) -> Seq<NetworkEndpointView> {
    let old_endpoint = endpoint(net, id);
    net.update(
        index_of(net, id),
        NetworkEndpointView {
            outbound: old_endpoint.outbound.push(NetworkMessageView { sender: id, data }),
            ..old_endpoint
        },
    )
}

/// A message waits for `id`.
pub open spec fn can_receive(net: Seq<NetworkEndpointView>, id: ConnectionId) -> bool {
    registered(net, id) && endpoint(net, id).inbound.len() > 0
}

/// The registry after `id` has taken its oldest inbound message.
pub open spec fn after_receive(net: Seq<NetworkEndpointView>, id: ConnectionId) -> Seq<
    NetworkEndpointView,
> {
    let old_endpoint = endpoint(net, id);
    net.update(
        index_of(net, id),
        NetworkEndpointView { inbound: old_endpoint.inbound.drop_first(), ..old_endpoint },
    )
}

/// The registry after the node behind `id` has hung up.
pub open spec fn after_close(net: Seq<NetworkEndpointView>, id: ConnectionId) -> Seq<
    NetworkEndpointView,
> {
    if registered(net, id) {
        net.update(index_of(net, id), NetworkEndpointView { closed: true, ..endpoint(net, id) })
    } else {
        net
    }
}

/// The messages that a tick offers to the endpoint at place `to` while the
/// endpoints before place `upto` have their turn: of each of them that has a
/// message waiting, the oldest; but nothing of the endpoint at `to` itself.
pub open spec fn offered(net: Seq<NetworkEndpointView>, to: int, upto: int) -> Seq<
    NetworkMessageView,
>
    decreases upto,
{
    if upto <= 0 {
        Seq::empty()
    } else {
        let before = offered(net, to, upto - 1);
        if upto - 1 != to && net[upto - 1].outbound.len() > 0 {
            before.push(net[upto - 1].outbound[0])
        } else {
            before
        }
    }
}

/// How many more messages the inbound queue of an endpoint takes: none if it
/// is closed.
pub open spec fn room(endpoint: NetworkEndpointView) -> nat {
    if endpoint.closed || endpoint.inbound.len() >= CHANNEL_CAPACITY {
        0
    } else {
        (CHANNEL_CAPACITY - endpoint.inbound.len()) as nat
    }
}

/// The endpoint at place `at` during a tick, when the endpoints before place
/// `upto` have had their turn. Its inbound queue has taken what was offered
/// as far as there was room. If more was offered, the delivery has failed and
/// the endpoint counts as closed. An endpoint that has had its turn has given
/// up its oldest outbound message.
pub open spec fn delivered_endpoint(
    net: Seq<NetworkEndpointView>,
    at: int,
    upto: int,
) -> NetworkEndpointView {
    let old_endpoint = net[at];
    let offer = offered(net, at, upto);
    NetworkEndpointView {
        id: old_endpoint.id,
        inbound: old_endpoint.inbound + if offer.len() <= room(old_endpoint) {
            offer
        } else {
            offer.take(room(old_endpoint) as int)
        },
        outbound: if at < upto && old_endpoint.outbound.len() > 0 {
            old_endpoint.outbound.drop_first()
        } else {
            old_endpoint.outbound
        },
        closed: old_endpoint.closed || offer.len() > room(old_endpoint),
    }
}

/// The registry during a tick, when the endpoints before place `upto` have
/// had their turn.
pub open spec fn delivered(net: Seq<NetworkEndpointView>, upto: int) -> Seq<NetworkEndpointView> {
    Seq::new(net.len(), |at: int| delivered_endpoint(net, at, upto))
}

/// The test by which a tick keeps an endpoint.
pub open spec fn is_open() -> spec_fn(NetworkEndpointView) -> bool {
    |endpoint: NetworkEndpointView| !endpoint.closed
}

/// The registry after a tick: every endpoint has had its turn, and the
/// closed ones, those whose delivery failed among them, are taken off.
pub open spec fn after_tick(net: Seq<NetworkEndpointView>) -> Seq<NetworkEndpointView> {
    delivered(net, net.len() as int).filter(is_open())
}

/// Nothing that a tick offers to an endpoint was sent by that endpoint.
pub proof fn lemma_offered_by_others(net: Seq<NetworkEndpointView>, to: int, upto: int, k: int)
    requires
        network_wf(net),
        0 <= to < net.len(),
        upto <= net.len(),
        0 <= k < offered(net, to, upto).len(),
    ensures
        offered(net, to, upto)[k].sender != net[to].id,
    decreases upto,
{
    if upto > 0 {
        let before = offered(net, to, upto - 1);
        if k < before.len() {
            lemma_offered_by_others(net, to, upto - 1, k);
        }
        // Otherwise the message is that of the endpoint at `upto - 1`, which is not the
        // endpoint at `to` and so goes by another identifier.
    }
}

/// During a tick the registry stays well formed.
pub proof fn lemma_delivered_wf(net: Seq<NetworkEndpointView>, upto: int)
    requires
        network_wf(net),
    ensures
        network_wf(delivered(net, upto)),
{
}

/// Taking the closed endpoints off keeps a registry well formed, and what
/// stays was there before.
pub proof fn lemma_open_only_wf(net: Seq<NetworkEndpointView>)
    requires
        network_wf(net),
    ensures
        network_wf(net.filter(is_open())),
        forall|i: int|
            0 <= i < net.filter(is_open()).len() ==> net.contains(
                #[trigger] net.filter(is_open())[i],
            ),
    decreases net.len(),
{
    let kept = net.filter(is_open());
    if net.len() > 0 {
        let front = net.drop_last();
        let last = net.last();
        lemma_open_only_wf(front);
        front.lemma_filter_push(last, is_open());
        assert(front.push(last) =~= net);
        let kept_front = front.filter(is_open());
        assert forall|i: int, j: int| 0 <= i < j < kept.len() implies kept[i].id
            != kept[j].id by {
            if j == kept_front.len() {
                // What was kept of the front stands somewhere in the front, before `last`.
                let place = choose|place: int|
                    0 <= place < front.len() && front[place] == kept_front[i];
                assert(net[place].id != net[net.len() - 1].id);
            }
        }
    }
}

/// A tick leaves in every endpoint's inbound queue what was there, followed
/// by messages of other endpoints only: an endpoint never gets back what it
/// has published.
pub proof fn lemma_no_self_delivery(net: Seq<NetworkEndpointView>, i: int)
    requires
        network_wf(net),
        0 <= i < after_tick(net).len(),
    ensures
        registered(net, after_tick(net)[i].id),
        endpoint(net, after_tick(net)[i].id).inbound.is_prefix_of(after_tick(net)[i].inbound),
        forall|k: int|
            endpoint(net, after_tick(net)[i].id).inbound.len() <= k < after_tick(
                net,
            )[i].inbound.len() ==> (#[trigger] after_tick(net)[i].inbound[k]).sender
                != after_tick(net)[i].id,
{
    let during = delivered(net, net.len() as int);
    let kept = after_tick(net)[i];
    lemma_open_only_wf(during);
    let at = choose|at: int| 0 <= at < during.len() && during[at] == kept;
    assert forall|k: int| net[at].inbound.len() <= k < kept.inbound.len() implies (
    #[trigger] kept.inbound[k]).sender != kept.id by {
        lemma_offered_by_others(net, at, net.len() as int, k - net[at].inbound.len());
    }
}

/// The fabric: the registered endpoints in the order of their registration.
#[derive(Debug)]
pub struct Network {
    endpoints: Vec<NetworkEndpoint>,
}

impl View for Network {
    type V = Seq<NetworkEndpointView>;

    closed spec fn view(&self) -> Seq<NetworkEndpointView> {
        self.endpoints@.map_values(|e: NetworkEndpoint| e@)
    }
}

/// Among endpoints with different identifiers, `id` names at most one place.
pub proof fn lemma_index_of(net: Seq<NetworkEndpointView>, i: int)
    requires
        network_wf(net),
        0 <= i < net.len(),
    ensures
        registered(net, net[i].id),
        index_of(net, net[i].id) == i,
{
    let chosen = index_of(net, net[i].id);
    assert(net[chosen].id == net[i].id);
}

impl Default for Network {
    /// A fabric without endpoints.
    fn default() -> (network: Network)
        ensures
            network@ == Seq::<NetworkEndpointView>::empty(),
    {
        Network::new()
    }
}

impl Network {
    /// The registry of every fabric is well formed.
    #[verifier::type_invariant]
    pub open spec fn inv(self) -> bool {
        network_wf(self@)
    }

    /// A fabric without endpoints.
    pub fn new() -> (network: Network)
        ensures
            network@ == Seq::<NetworkEndpointView>::empty(),
            network_wf(network@),
    {
        let network = Network { endpoints: Vec::new() };
        network
    }

    /// Looks up the place of the endpoint registered under `id`.
    fn find(&self, id: ConnectionId) -> (found: Option<usize>)
        ensures
            network_wf(self@),
            match found {
                Some(i) => registered(self@, id) && i == index_of(self@, id) && i < self@.len()
                    && self.endpoints@.len() == self@.len(),
                None => !registered(self@, id),
            },
    {
        proof {
            use_type_invariant(self);
        }
        let mut i: usize = 0;
        while i < self.endpoints.len()
            invariant
                i <= self.endpoints@.len(),
                self.endpoints@.len() == self@.len(),
                network_wf(self@),
                forall|k: int| 0 <= k < i ==> (#[trigger] self@[k]).id != id,
            decreases self.endpoints@.len() - i,
        {
            if self.endpoints[i].id == id {
                proof {
                    assert(self@[i as int].id == id);
                }
                return Some(i);
            }
            i = i + 1;
        }
        None
    }

    /// Whether an endpoint is registered under `id`.
    pub fn is_registered(&self, id: ConnectionId) -> (found: bool)
        ensures
            found == registered(self@, id),
    {
        self.find(id).is_some()
    }

    /// The number of registered endpoints.
    pub fn endpoint_count(&self) -> (count: usize)
        ensures
            count == self@.len(),
    {
        self.endpoints.len()
    }

    /// Registers an endpoint under `id` and returns the handle to it.
    /// Registering an identifier again replaces the endpoint it names.
    pub fn connect_as(&mut self, id: ConnectionId) -> (connection: NetworkConnection)
        ensures
            connection.id == id,
            final(self)@ == after_connect(old(self)@, id),
            network_wf(final(self)@),
    {
        let found = self.find(id);
        let fresh = NetworkEndpoint { id, inbound: Vec::new(), outbound: Vec::new(), closed: false };
        assert(fresh@ == fresh_endpoint(id)) by {
            assert(queue_view(fresh.inbound@) =~= Seq::<NetworkMessageView>::empty());
        }
        let ghost before = self@;
        let mut endpoints: Vec<NetworkEndpoint> = Vec::new();
        std::mem::swap(&mut self.endpoints, &mut endpoints);
        match found {
            Some(i) => {
                endpoints.set(i, fresh);
                assert(endpoints@.map_values(|e: NetworkEndpoint| e@) =~= before.update(
                    i as int,
                    fresh_endpoint(id),
                ));
            },
            None => {
                endpoints.push(fresh);
                assert(endpoints@.map_values(|e: NetworkEndpoint| e@) =~= before.push(
                    fresh_endpoint(id),
                ));
            },
        }
        self.endpoints = endpoints;
        NetworkConnection { id }
    }

    /// Registers an endpoint under a newly drawn identifier and returns the
    /// handle to it.
    pub fn connect(&mut self) -> (connection: NetworkConnection)
        ensures
            final(self)@ == after_connect(old(self)@, connection.id),
            network_wf(final(self)@),
    {
        let id = fresh_connection_id();
        self.connect_as(id)
    }

    /// Queues `data` as a message from `id`. Fails, and changes nothing, when
    /// `id` is not registered, its endpoint is closed, or its outbound queue is
    /// full.
    pub fn send(&mut self, id: ConnectionId, data: NetworkMessageData) -> (result: Result<
        (),
        NetworkError,
    >)
        ensures
            network_wf(final(self)@),
            match result {
                Ok(_) => can_send(old(self)@, id) && final(self)@ == after_send(
                    old(self)@,
                    id,
                    data@,
                ),
                Err(error) => !can_send(old(self)@, id) && final(self)@ == old(self)@
                    && error is Failed,
            },
    {
        let i = match self.find(id) {
            Some(i) => i,
            None => {
                return Err(NetworkError::Failed);
            },
        };
        if self.endpoints[i].closed || self.endpoints[i].outbound.len() >= CHANNEL_CAPACITY {
            return Err(NetworkError::Failed);
        }
        let ghost before = self@;
        let ghost data_view = data@;
        let mut endpoints: Vec<NetworkEndpoint> = Vec::new();
        std::mem::swap(&mut self.endpoints, &mut endpoints);
        let ghost queue = endpoints@[i as int].outbound@;
        let message = NetworkMessage { sender: id, data };
        endpoints[i].outbound.push(message);
        proof {
            assert(queue_view(endpoints@[i as int].outbound@) =~= queue_view(queue).push(message@));
            assert(endpoints@.map_values(|e: NetworkEndpoint| e@) =~= after_send(
                before,
                id,
                data_view,
            ));
        }
        self.endpoints = endpoints;
        Ok(())
    }

    /// Takes the oldest message that waits for `id`. Fails, and changes
    /// nothing, when `id` is not registered or nothing waits for it.
    pub fn receive(&mut self, id: ConnectionId) -> (result: Result<NetworkMessage, NetworkError>)
        ensures
            network_wf(final(self)@),
            match result {
                Ok(message) => can_receive(old(self)@, id) && message@ == endpoint(
                    old(self)@,
                    id,
                ).inbound[0] && final(self)@ == after_receive(old(self)@, id),
                Err(error) => !can_receive(old(self)@, id) && final(self)@ == old(self)@
                    && error is NoMessagesToReceive,
            },
    {
        let i = match self.find(id) {
            Some(i) => i,
            None => {
                return Err(NetworkError::NoMessagesToReceive);
            },
        };
        if self.endpoints[i].inbound.len() == 0 {
            return Err(NetworkError::NoMessagesToReceive);
        }
        let ghost before = self@;
        let mut endpoints: Vec<NetworkEndpoint> = Vec::new();
        std::mem::swap(&mut self.endpoints, &mut endpoints);
        let ghost queue = endpoints@[i as int].inbound@;
        let message = endpoints[i].inbound.remove(0);
        proof {
            assert(queue_view(endpoints@[i as int].inbound@) =~= queue_view(queue).drop_first());
            assert(endpoints@.map_values(|e: NetworkEndpoint| e@) =~= after_receive(before, id));
        }
        self.endpoints = endpoints;
        Ok(message)
    }

    /// One tick of the fabric. Each endpoint in turn, in the order of
    /// registration, gives up its oldest outbound message, which is handed to
    /// every other endpoint. An endpoint that is closed or has no room for a
    /// message fails and counts as closed from then on. At the end the closed
    /// endpoints are taken off the registry.
    pub fn work(&mut self)
        ensures
            final(self)@ == after_tick(old(self)@),
            network_wf(final(self)@),
    {
        proof {
            use_type_invariant(&*self);
        }
        let ghost net = self@;
        let mut endpoints: Vec<NetworkEndpoint> = Vec::new();
        std::mem::swap(&mut self.endpoints, &mut endpoints);
        let count = endpoints.len();
        let mut from: usize = 0;
        while from < count
            invariant
                from <= count,
                count == net.len(),
                network_wf(net),
                endpoints@.len() == count,
                forall|at: int|
                    0 <= at < count ==> (#[trigger] endpoints@[at])@ == delivered_endpoint(
                        net,
                        at,
                        from as int,
                    ),
            decreases count - from,
        {
            if endpoints[from].outbound.len() > 0 {
                let ghost start = endpoints@;
                let ghost queue = endpoints@[from as int].outbound@;
                let sender = endpoints[from].id;
                let message = endpoints[from].outbound.remove(0);
                proof {
                    assert(queue_view(endpoints@[from as int].outbound@) =~= queue_view(
                        queue,
                    ).drop_first());
                    assert(offered(net, from as int, from + 1) == offered(
                        net,
                        from as int,
                        from as int,
                    ));
                    assert(endpoints@[from as int]@ == delivered_endpoint(
                        net,
                        from as int,
                        from + 1,
                    ));
                    assert forall|at: int| 0 <= at < count && at != from implies (
                    #[trigger] endpoints@[at]) == start[at] by {}
                }
                let mut to: usize = 0;
                while to < count
                    invariant
                        to <= count,
                        from < count,
                        count == net.len(),
                        network_wf(net),
                        endpoints@.len() == count,
                        sender == net[from as int].id,
                        net[from as int].outbound.len() > 0,
                        message@ == net[from as int].outbound[0],
                        forall|at: int|
                            0 <= at < count ==> (#[trigger] endpoints@[at])@ == delivered_endpoint(
                                net,
                                at,
                                if at < to || at == from {
                                    from + 1
                                } else {
                                    from as int
                                },
                            ),
                    decreases count - to,
                {
                    if endpoints[to].id != sender {
                        let ghost inbound = endpoints@[to as int].inbound@;
                        if endpoints[to].closed || endpoints[to].inbound.len() >= CHANNEL_CAPACITY {
                            endpoints[to].closed = true;
                            proof {
                                assert(endpoints@[to as int]@.inbound =~= delivered_endpoint(
                                    net,
                                    to as int,
                                    from + 1,
                                ).inbound);
                                assert(endpoints@[to as int]@ == delivered_endpoint(
                                    net,
                                    to as int,
                                    from + 1,
                                ));
                            }
                        } else {
                            let copy = message.clone();
                            endpoints[to].inbound.push(copy);
                            proof {
                                assert(queue_view(endpoints@[to as int].inbound@) =~= queue_view(
                                    inbound,
                                ).push(message@));
                                assert(endpoints@[to as int]@.inbound =~= delivered_endpoint(
                                    net,
                                    to as int,
                                    from + 1,
                                ).inbound);
                            }
                        }
                    } else {
                        proof {
                            assert(offered(net, from as int, from + 1) == offered(
                                net,
                                from as int,
                                from as int,
                            ));
                        }
                    }
                    to = to + 1;
                }
            }
            from = from + 1;
        }
        assert(endpoints@.map_values(|e: NetworkEndpoint| e@) =~= delivered(net, count as int));
        let ghost during = endpoints@;
        let mut kept: Vec<NetworkEndpoint> = Vec::new();
        assert(endpoints@.take(0).map_values(|e: NetworkEndpoint| e@) =~= Seq::<
            NetworkEndpointView,
        >::empty());
        for endpoint in iter: endpoints
            invariant
                iter.seq() == during,
                kept@.map_values(|e: NetworkEndpoint| e@) == during.take(iter.index()).map_values(
                    |e: NetworkEndpoint| e@,
                ).filter(is_open()),
        {
            proof {
                let seen = during.take(iter.index()).map_values(|e: NetworkEndpoint| e@);
                seen.lemma_filter_push(endpoint@, is_open());
                assert(during.take(iter.index() + 1).map_values(|e: NetworkEndpoint| e@)
                    =~= seen.push(endpoint@));
            }
            if !endpoint.closed {
                let ghost kept_before = kept@;
                kept.push(endpoint);
                assert(kept@.map_values(|e: NetworkEndpoint| e@) =~= kept_before.map_values(
                    |e: NetworkEndpoint| e@,
                ).push(endpoint@));
            }
        }
        proof {
            assert(during.take(during.len() as int) =~= during);
            lemma_open_only_wf(delivered(net, net.len() as int));
        }
        self.endpoints = kept;
    }

    /// Marks the endpoint under `id` as closed: the node behind it has hung
    /// up. The next tick takes it off the registry.
    pub fn close(&mut self, id: ConnectionId)
        ensures
            final(self)@ == after_close(old(self)@, id),
            network_wf(final(self)@),
    {
        match self.find(id) {
            Some(i) => {
                let ghost before = self@;
                let mut endpoints: Vec<NetworkEndpoint> = Vec::new();
                std::mem::swap(&mut self.endpoints, &mut endpoints);
                endpoints[i].closed = true;
                assert(endpoints@.map_values(|e: NetworkEndpoint| e@) =~= after_close(before, id));
                self.endpoints = endpoints;
            },
            None => {},
        }
    }
}

/// A node's handle to its endpoint.
#[derive(Debug)]
pub struct NetworkConnection {
    pub id: ConnectionId,
}

impl NetworkConnection {
    /// The handle to the endpoint under `id`.
    pub fn new(id: ConnectionId) -> (connection: Self)
        ensures
            connection.id == id,
    {
        NetworkConnection { id }
    }

    /// Publishes `data` through this connection's outbound queue.
    pub fn send(&mut self, network: &mut Network, data: NetworkMessageData) -> (result: Result<
        (),
        NetworkError,
    >)
        ensures
            final(self).id == old(self).id,
            network_wf(final(network)@),
            match result {
                Ok(_) => can_send(old(network)@, old(self).id) && final(network)@ == after_send(
                    old(network)@,
                    old(self).id,
                    data@,
                ),
                Err(error) => !can_send(old(network)@, old(self).id) && final(network)@ == old(
                    network,
                )@ && error is Failed,
            },
    {
        network.send(self.id, data)
    }

    /// Takes the oldest message from this connection's inbound queue, without
    /// waiting for one.
    pub fn receive(&mut self, network: &mut Network) -> (result: Result<
        NetworkMessage,
        NetworkError,
    >)
        ensures
            final(self).id == old(self).id,
            network_wf(final(network)@),
            match result {
                Ok(message) => can_receive(old(network)@, old(self).id) && message@ == endpoint(
                    old(network)@,
                    old(self).id,
                ).inbound[0] && final(network)@ == after_receive(old(network)@, old(self).id),
                Err(error) => !can_receive(old(network)@, old(self).id) && final(network)@ == old(
                    network,
                )@ && error is NoMessagesToReceive,
            },
    {
        network.receive(self.id)
    }
}

} // verus!
