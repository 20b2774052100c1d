//! Request correlation: the registry that maps the identity of an
//! in-flight request to its single-use completion sink, and the decisions
//! taken around one request.
use vstd::prelude::*;
use dashmap::DashMap;
use std::collections::hash_map::RandomState;

verus! {

/// The concurrent map of the `dashmap` crate, opaque to the verifier.
#[verifier::external_type_specification]
#[verifier::external_body]
#[verifier::reject_recursive_types(K)]
#[verifier::reject_recursive_types(V)]
#[verifier::reject_recursive_types(S)]
pub struct ExDashMap<K, V, S>(DashMap<K, V, S>);

/// The map of a registry: from the identity of a request, a pair of
/// session sequence and send handle, to the token of its sink.
pub type SinkMap = DashMap<(i32, i32), u64, RandomState>;

/// The entries that a registry map holds: sink by identity.
pub uninterp spec fn entries(m: SinkMap) -> Map<(i32, i32), u64>;

/// The registry without outstanding requests.
pub open spec fn nothing_pending() -> Map<(i32, i32), u64> {
    Map::empty()
}

/// `DashMap::new`: a map without entries.
#[verifier::external_body]
fn map_new() -> (r: SinkMap)
    ensures
        entries(r) == nothing_pending(),
{
    DashMap::new()
}

/// `DashMap::contains_key`: whether the map holds an entry under `key`.
#[verifier::external_body]
fn map_contains(m: &SinkMap, key: (i32, i32)) -> (r: bool)
    ensures
        r == entries(*m).dom().contains(key),
{
    m.contains_key(&key)
}

/// `DashMap::insert`: afterwards the map holds `value` under `key` and is
/// otherwise as before; the result is the value that `key` had, if any.
#[verifier::external_body]
fn map_insert(m: &mut SinkMap, key: (i32, i32), value: u64) -> (r:
    Option<u64>)
    ensures
        entries(*final(m)) == entries(*old(m)).insert(key, value),
        r == (if entries(*old(m)).dom().contains(key) {
            Some(entries(*old(m))[key])
        } else {
            None
        }),
{
    m.insert(key, value)
}

/// `DashMap::remove`: afterwards the map holds nothing under `key` and is
/// otherwise as before; the result is the value that `key` had, if any.
#[verifier::external_body]
fn map_remove(m: &mut SinkMap, key: (i32, i32)) -> (r: Option<u64>)
    ensures
        entries(*final(m)) == entries(*old(m)).remove(key),
        r == (if entries(*old(m)).dom().contains(key) {
            Some(entries(*old(m))[key])
        } else {
            None
        }),
{
    m.remove(&key).map(|entry| entry.1)
}

/// `DashMap::len`: the number of entries.
#[verifier::external_body]
fn map_len(m: &SinkMap) -> (r: usize)
    ensures
        r == entries(*m).dom().len(),
{
    m.len()
}

/// State of a connection, as the transport reports it.
#[derive(Clone, Copy, Debug, PartialEq, Eq, Structural)]
pub enum ConnectionStatus {
    Disconnected,
    Connecting,
    Connected,
    SafeConnecting,
    SafeConnected,
    Registering,
    Registered,
    Rejected,
}

/// The bit that stands for a status in the transport's status word.
pub open spec fn status_bits(s: ConnectionStatus) -> u32 {
    match s {
        ConnectionStatus::Disconnected => 0x0000,
        ConnectionStatus::Connecting => 0x0001,
        ConnectionStatus::Connected => 0x0002,
        ConnectionStatus::SafeConnecting => 0x0004,
        ConnectionStatus::SafeConnected => 0x0008,
        ConnectionStatus::Registering => 0x0010,
        ConnectionStatus::Registered => 0x0020,
        ConnectionStatus::Rejected => 0x0040,
    }
}

impl ConnectionStatus {
    /// The bit that stands for this status.
    pub fn bits(self) -> (b: u32)
        ensures
            b == status_bits(self),
    {
        match self {
            ConnectionStatus::Disconnected => 0x0000,
            ConnectionStatus::Connecting => 0x0001,
            ConnectionStatus::Connected => 0x0002,
            ConnectionStatus::SafeConnecting => 0x0004,
            ConnectionStatus::SafeConnected => 0x0008,
            ConnectionStatus::Registering => 0x0010,
            ConnectionStatus::Registered => 0x0020,
            ConnectionStatus::Rejected => 0x0040,
        }
    }

    /// The status that a status word names, where it names exactly one.
    pub fn from_bits(b: u32) -> (r: Option<ConnectionStatus>)
        ensures
            match r {
                Some(s) => status_bits(s) == b,
                None => forall|s: ConnectionStatus| status_bits(s) != b,
            },
    {
        if b == 0x0000 {
            Some(ConnectionStatus::Disconnected)
        } else if b == 0x0001 {
            Some(ConnectionStatus::Connecting)
        } else if b == 0x0002 {
            Some(ConnectionStatus::Connected)
        } else if b == 0x0004 {
            Some(ConnectionStatus::SafeConnecting)
        } else if b == 0x0008 {
            Some(ConnectionStatus::SafeConnected)
        } else if b == 0x0010 {
            Some(ConnectionStatus::Registering)
        } else if b == 0x0020 {
            Some(ConnectionStatus::Registered)
        } else if b == 0x0040 {
            Some(ConnectionStatus::Rejected)
        } else {
            None
        }
    }
}

/// Flags of a receive call.
#[derive(Clone, Copy, Debug, PartialEq, Eq, Structural)]
pub enum RecvFlags {
    JustRemoveHandle,
}

impl RecvFlags {
    /// The bit that stands for this flag.
    pub fn bits(self) -> (b: u32)
        ensures
            b == 0x0001,
    {
        0x0001
    }
}

/// Why a request did not yield a response.
#[derive(Clone, Copy, Debug, PartialEq, Eq, Structural)]
pub enum RequestError {
    /// The transport returned no positive handle: nothing was sent.
    SendFailed,
    /// The identity is already registered: two outstanding requests would
    /// share it.
    DuplicateRegistration,
    /// No response arrived before the deadline.
    Timeout,
    /// The sink was dropped without a response.
    ChannelClosed,
}

/// Identity of one outstanding request: the session's sequence number and
/// the handle that the send returned.
#[derive(Clone, Copy, Debug, PartialEq, Eq, Structural)]
pub struct RequestIdentity {
    pub sequence: i32,
    pub handle: i32,
}

impl RequestIdentity {
    pub open spec fn key(self) -> (i32, i32) {
        (self.sequence, self.handle)
    }
}

/// A response handed to the sink it belongs to.
pub struct Delivery<P> {
    /// The sink that must fire, once.
    pub sink: u64,
    /// What it fires with.
    pub payload: P,
}

/// The registry after a registration: unchanged where the identity is
/// taken.
pub open spec fn register_spec(m: Map<(i32, i32), u64>, key: (i32, i32), sink: u64) -> Map<
    (i32, i32),
    u64,
> {
    if m.dom().contains(key) {
        m
    } else {
        m.insert(key, sink)
    }
}

/// The registry after a delivery or a cancellation: the identity is gone.
pub open spec fn resolved(m: Map<(i32, i32), u64>, key: (i32, i32)) -> Map<(i32, i32), u64> {
    m.remove(key)
}

/// The sink that a delivery fires: the one registered, if any.
pub open spec fn sink_of(m: Map<(i32, i32), u64>, key: (i32, i32)) -> Option<u64> {
    if m.dom().contains(key) {
        Some(m[key])
    } else {
        None
    }
}

/// A delivery for an identity that was delivered to or cancelled finds no
/// sink and changes nothing.
pub proof fn lemma_at_most_once(m: Map<(i32, i32), u64>, key: (i32, i32))
    ensures
        sink_of(resolved(m, key), key) is None,
        resolved(resolved(m, key), key) == resolved(m, key),
        !resolved(m, key).dom().contains(key),
{
    assert(resolved(resolved(m, key), key) =~= resolved(m, key));
}

/// Resolving one identity leaves every other as it was: each of several
/// registered identities still finds its own sink, once.
pub proof fn lemma_others_untouched(m: Map<(i32, i32), u64>, key: (i32, i32), other: (i32, i32))
    requires
        key != other,
    ensures
        sink_of(resolved(m, key), other) == sink_of(m, other),
        sink_of(register_spec(m, key, 0), other) == sink_of(m, other),
{
}

/// A registration that was accepted is found by the next delivery, and by
/// no delivery after it.
pub proof fn lemma_register_then_deliver(m: Map<(i32, i32), u64>, key: (i32, i32), sink: u64)
    requires
        !m.dom().contains(key),
    ensures
        sink_of(register_spec(m, key, sink), key) == Some(sink),
        resolved(register_spec(m, key, sink), key) == m,
{
    assert(resolved(register_spec(m, key, sink), key) =~= m);
}

/// The registry after a delivery for each of the identities, in order.
pub open spec fn resolved_all(m: Map<(i32, i32), u64>, keys: Seq<(i32, i32)>) -> Map<
    (i32, i32),
    u64,
>
    decreases keys.len(),
{
    if keys.len() == 0 {
        m
    } else {
        resolved_all(resolved(m, keys[0]), keys.skip(1))
    }
}

/// After deliveries for some identities the registry holds what it held
/// of every other identity, and nothing of these.
pub proof fn lemma_resolved_all(m: Map<(i32, i32), u64>, keys: Seq<(i32, i32)>, k: (i32, i32))
    ensures
        sink_of(resolved_all(m, keys), k) == (if keys.contains(k) {
            None
        } else {
            sink_of(m, k)
        }),
    decreases keys.len(),
{
    if keys.len() > 0 {
        lemma_resolved_all(resolved(m, keys[0]), keys.skip(1), k);
        if keys.skip(1).contains(k) {
            let i = choose|i: int| 0 <= i < keys.skip(1).len() && keys.skip(1)[i] == k;
            assert(keys[i + 1] == k);
        }
        if keys.contains(k) && keys[0] != k {
            let i = choose|i: int| 0 <= i < keys.len() && keys[i] == k;
            assert(keys.skip(1)[i - 1] == k);
        }
    }
}

/// Each of several registered identities is delivered to exactly once:
/// when deliveries are made for distinct registered identities one after
/// the other, each finds the sink that was registered for it, and a
/// second delivery for any of them, after all, finds none.
pub proof fn lemma_each_delivered_once(m: Map<(i32, i32), u64>, keys: Seq<(i32, i32)>, i: int)
    requires
        0 <= i < keys.len(),
        keys.no_duplicates(),
        forall|j: int| 0 <= j < keys.len() ==> m.dom().contains(#[trigger] keys[j]),
    ensures
        sink_of(resolved_all(m, keys.take(i)), keys[i]) == Some(m[keys[i]]),
        sink_of(resolved_all(m, keys), keys[i]) is None,
{
    lemma_resolved_all(m, keys.take(i), keys[i]);
    lemma_resolved_all(m, keys, keys[i]);
    if keys.take(i).contains(keys[i]) {
        let j = choose|j: int| 0 <= j < keys.take(i).len() && keys.take(i)[j] == keys[i];
        assert(keys[j] == keys[i]);
    }
    assert(keys.contains(keys[i]));
}

/// The registry of outstanding requests.
pub struct CallbackRegistry {
    callbacks: SinkMap,
}

impl View for CallbackRegistry {
    type V = Map<(i32, i32), u64>;

    closed spec fn view(&self) -> Map<(i32, i32), u64> {
        entries(self.callbacks)
    }
}

impl CallbackRegistry {
    /// A registry without outstanding requests.
    pub fn new() -> (r: CallbackRegistry)
        ensures
            r@ == Map::<(i32, i32), u64>::empty(),
    {
        CallbackRegistry { callbacks: map_new() }
    }

    /// Registers the sink of a request. An identity that is already
    /// registered is refused, and its sink stays.
    pub fn register(&mut self, sequence: i32, msg_id: i32, sink: u64) -> (r: Result<
        (),
        RequestError,
    >)
        ensures
            final(self)@ == register_spec(old(self)@, (sequence, msg_id), sink),
            old(self)@.dom().contains((sequence, msg_id)) ==> r == Err::<(), RequestError>(
                RequestError::DuplicateRegistration,
            ),
            !old(self)@.dom().contains((sequence, msg_id)) ==> r is Ok && sink_of(
                final(self)@,
                (sequence, msg_id),
            ) == Some(sink),
    {
        if map_contains(&self.callbacks, (sequence, msg_id)) {
            return Err(RequestError::DuplicateRegistration);
        }
        let _ = map_insert(&mut self.callbacks, (sequence, msg_id), sink);
        Ok(())
    }

    /// Delivers a response: the identity leaves the registry and its sink
    /// is handed out with the payload. Without a sink under the identity
    /// nothing changes and nothing is handed out.
    pub fn invoke_callback<P>(&mut self, key: (i32, i32), payload: P) -> (r: Option<Delivery<P>>)
        ensures
            final(self)@ == resolved(old(self)@, key),
            !final(self)@.dom().contains(key),
            match sink_of(old(self)@, key) {
                Some(sink) => r is Some && r->Some_0.sink == sink && r->Some_0.payload == payload,
                None => r is None && final(self)@ == old(self)@,
            },
    {
        match map_remove(&mut self.callbacks, key) {
            Some(sink) => Some(Delivery { sink, payload }),
            None => {
                assert(self@ =~= old(self)@);
                None
            },
        }
    }

    /// Cancels a request: the identity leaves the registry and its sink
    /// does not fire. Says whether there was one.
    pub fn cancel(&mut self, key: (i32, i32)) -> (r: bool)
        ensures
            final(self)@ == resolved(old(self)@, key),
            !final(self)@.dom().contains(key),
            r == old(self)@.dom().contains(key),
            !r ==> final(self)@ == old(self)@,
    {
        match map_remove(&mut self.callbacks, key) {
            Some(_) => true,
            None => {
                assert(self@ =~= old(self)@);
                false
            },
        }
    }

    /// Whether the identity is registered.
    pub fn is_registered(&self, key: (i32, i32)) -> (r: bool)
        ensures
            r == self@.dom().contains(key),
    {
        map_contains(&self.callbacks, key)
    }

    /// Number of outstanding requests.
    pub fn len(&self) -> (r: usize)
        ensures
            r == self@.dom().len(),
    {
        map_len(&self.callbacks)
    }
}

/// What became of a request while its caller waited.
pub enum WaitOutcome<P> {
    /// The sink fired with a response.
    Delivered(P),
    /// The sink was dropped.
    Closed,
    /// The deadline passed.
    TimedOut,
}

/// The sequence numbers that namespace the identities of sessions.
pub struct SequenceCounter {
    next: i32,
}

impl SequenceCounter {
    pub closed spec fn next(&self) -> i32 {
        self.next
    }

    /// A counter that starts at zero.
    pub fn new() -> (r: SequenceCounter)
        ensures
            r.next() == 0,
    {
        SequenceCounter { next: 0 }
    }

    /// The number of the next session; the one after it is one more, and
    /// follows the largest by the smallest.
    pub fn fetch_add(&mut self) -> (r: i32)
        ensures
            r == old(self).next(),
            final(self).next() == (if r == i32::MAX {
                i32::MIN
            } else {
                (r + 1) as i32
            }),
    {
        let r: i32 = self.next;
        self.next = if r == i32::MAX {
            i32::MIN
        } else {
            r + 1
        };
        r
    }
}

/// One session of a client: its sequence number.
#[derive(Clone, Copy, Debug, PartialEq, Eq, Structural)]
pub struct Connection {
    pub sequence: i32,
}

impl Connection {
    /// A session under the next sequence number.
    pub fn new(counter: &mut SequenceCounter) -> (c: Connection)
        ensures
            c.sequence == old(counter).next(),
            final(counter).next() == (if c.sequence == i32::MAX {
                i32::MIN
            } else {
                (c.sequence + 1) as i32
            }),
    {
        Connection { sequence: counter.fetch_add() }
    }

    /// Takes the handle that the transport returned for a message. A
    /// handle that is not positive is a failed send, and registers
    /// nothing; a positive one makes the identity under which `sink` is
    /// registered. An identity that is already registered is refused.
    pub fn send_biz_msg(&self, registry: &mut CallbackRegistry, handle: i32, sink: u64) -> (r:
        Result<RequestIdentity, RequestError>)
        ensures
            handle <= 0 ==> r == Err::<RequestIdentity, RequestError>(RequestError::SendFailed)
                && final(registry)@ == old(registry)@,
            handle > 0 && old(registry)@.dom().contains((self.sequence, handle)) ==> r == Err::<
                RequestIdentity,
                RequestError,
            >(RequestError::DuplicateRegistration) && final(registry)@ == old(registry)@,
            handle > 0 && !old(registry)@.dom().contains((self.sequence, handle)) ==> r == Ok::<
                RequestIdentity,
                RequestError,
            >(RequestIdentity { sequence: self.sequence, handle }) && final(registry)@ == old(registry)@.insert((self.sequence, handle), sink),
    {
        if handle <= 0 {
            return Err(RequestError::SendFailed);
        }
        match registry.register(self.sequence, handle, sink) {
            Err(e) => Err(e),
            Ok(()) => Ok(RequestIdentity { sequence: self.sequence, handle }),
        }
    }

    /// Ends the wait for a response. A response is handed on. In every
    /// other case the identity is first taken out of the registry, so that
    /// a response that arrives later finds no sink, and the failure is
    /// reported.
    pub fn finish<P>(
        registry: &mut CallbackRegistry,
        identity: RequestIdentity,
        outcome: WaitOutcome<P>,
    ) -> (r: Result<P, RequestError>)
        ensures
            match outcome {
                WaitOutcome::Delivered(p) => r is Ok && r->Ok_0 == p && final(registry)@ == old(registry)@,
                WaitOutcome::Closed => r is Err && r->Err_0 == RequestError::ChannelClosed
                    && final(registry)@ == resolved(old(registry)@, identity.key()),
                WaitOutcome::TimedOut => r is Err && r->Err_0 == RequestError::Timeout && final(registry)@ == resolved(old(registry)@, identity.key()),
            },
            !(outcome is Delivered) ==> !final(registry)@.dom().contains(identity.key()),
    {
        match outcome {
            WaitOutcome::Delivered(p) => Ok(p),
            WaitOutcome::Closed => {
                let _ = registry.cancel((identity.sequence, identity.handle));
                Err(RequestError::ChannelClosed)
            },
            WaitOutcome::TimedOut => {
                let _ = registry.cancel((identity.sequence, identity.handle));
                Err(RequestError::Timeout)
            },
        }
    }
}

} // verus!
