//! The remote-execution protocol: the byte layout of requests and
//! responses, and the table that routes each response to the call
//! waiting for it.
use std::collections::HashMap;
use vstd::prelude::*;

use crate::vertex::{MachineID, RemoteVertex, VertexID};

verus! {

broadcast use vstd::std_specs::hash::group_hash_axioms;

/// Correlation token of one outstanding remote call.
pub type RequestID = u128;

/// Bytes of a request before its auxiliary payload: request identifier
/// (16), vertex identifier (4), payload length (8).
pub const COMMAND_HEADER_LEN: usize = 28;

/// Bytes of a response before its result payload: request identifier
/// (16), payload length (8).
pub const RESPONSE_HEADER_LEN: usize = 24;

pub open spec fn pow256(n: nat) -> nat
    decreases n,
{
    if n == 0 {
        1
    } else {
        256 * pow256((n - 1) as nat)
    }
}

/// The `n` low bytes of `x`, least significant first.
pub open spec fn le_bytes(x: nat, n: nat) -> Seq<u8>
    decreases n,
{
    if n == 0 {
        Seq::empty()
    } else {
        seq![(x % 256) as u8] + le_bytes(x / 256, (n - 1) as nat)
    }
}

/// The number whose little-endian bytes are `s`.
pub open spec fn le_value(s: Seq<u8>) -> nat
    decreases s.len(),
{
    if s.len() == 0 {
        0
    } else {
        s[0] as nat + 256 * le_value(s.drop_first())
    }
}

/// A request to run the function on `vertex`, carrying `aux`.
pub open spec fn command_bytes(id: RequestID, vertex: VertexID, aux: Seq<u8>) -> Seq<u8> {
    le_bytes(id as nat, 16) + le_bytes(vertex as nat, 4) + le_bytes(aux.len(), 8) + aux
}

/// The answer to request `id`, carrying the serialized result.
pub open spec fn response_bytes(id: RequestID, payload: Seq<u8>) -> Seq<u8> {
    le_bytes(id as nat, 16) + le_bytes(payload.len(), 8) + payload
}

/// The request at the front of `s`, with the number of bytes it takes,
/// when `s` starts with a complete one.
pub open spec fn parsed_command(s: Seq<u8>) -> Option<(RequestID, VertexID, Seq<u8>, nat)> {
    if s.len() < 28 {
        None
    } else {
        let n = le_value(s.subrange(20, 28));
        if 28 + n > s.len() {
            None
        } else {
            Some(
                (
                    le_value(s.subrange(0, 16)) as RequestID,
                    le_value(s.subrange(16, 20)) as VertexID,
                    s.subrange(28, 28 + n as int),
                    (28 + n) as nat,
                ),
            )
        }
    }
}

/// The response at the front of `s`, with the number of bytes it takes,
/// when `s` starts with a complete one.
pub open spec fn parsed_response(s: Seq<u8>) -> Option<(RequestID, Seq<u8>, nat)> {
    if s.len() < 24 {
        None
    } else {
        let n = le_value(s.subrange(16, 24));
        if 24 + n > s.len() {
            None
        } else {
            Some((le_value(s.subrange(0, 16)) as RequestID, s.subrange(24, 24 + n as int), (24 + n) as nat))
        }
    }
}

proof fn lemma_le_bytes_len(x: nat, n: nat)
    ensures
        le_bytes(x, n).len() == n,
    decreases n,
{
    if n > 0 {
        lemma_le_bytes_len(x / 256, (n - 1) as nat);
    }
}

proof fn lemma_le_value_bound(s: Seq<u8>)
    ensures
        le_value(s) < pow256(s.len()),
    decreases s.len(),
{
    if s.len() > 0 {
        let rest = s.drop_first();
        lemma_le_value_bound(rest);
        let a = le_value(rest);
        let p = pow256(rest.len());
        assert(s[0] as nat + 256 * a < 256 * p) by (nonlinear_arith)
            requires
                a < p,
                s[0] < 256,
        ;
    }
}

proof fn lemma_le_round_trip(x: nat, n: nat)
    requires
        x < pow256(n),
    ensures
        le_value(le_bytes(x, n)) == x,
    decreases n,
{
    lemma_le_bytes_len(x, n);
    if n > 0 {
        let q = x / 256;
        assert(q < pow256((n - 1) as nat)) by (nonlinear_arith)
            requires
                x < 256 * pow256((n - 1) as nat),
                q == x / 256,
        ;
        lemma_le_round_trip(q, (n - 1) as nat);
        let s = le_bytes(x, n);
        assert(s.drop_first() == le_bytes(q, (n - 1) as nat));
    } else {
        assert(le_bytes(x, n) == Seq::<u8>::empty());
    }
}

proof fn lemma_pow256_mono(a: nat, b: nat)
    requires
        a <= b,
    ensures
        pow256(a) <= pow256(b),
    decreases b,
{
    if a < b {
        lemma_pow256_mono(a, (b - 1) as nat);
    }
}

proof fn lemma_pow256_values()
    ensures
        pow256(4) == 0x1_0000_0000,
        pow256(8) == 0x1_0000_0000_0000_0000,
        pow256(16) == 0x1_0000_0000_0000_0000_0000_0000_0000_0000,
{
    reveal_with_fuel(pow256, 17);
}

/// Appends the `n` low bytes of `x` to `out`, least significant first.
fn push_le(out: &mut Vec<u8>, x: u128, n: usize)
    ensures
        final(out)@ == old(out)@ + le_bytes(x as nat, n as nat),
    decreases n,
{
    if n == 0 {
        assert(old(out)@ + Seq::<u8>::empty() == old(out)@);
    } else {
        out.push((x % 256) as u8);
        push_le(out, x / 256, n - 1);
        assert(out@ == old(out)@ + le_bytes(x as nat, n as nat));
    }
}

/// The number stored little-endian in the `n` bytes of `bytes` from `start`.
fn read_le(bytes: &Vec<u8>, start: usize, n: usize) -> (r: u128)
    requires
        start + n <= bytes@.len(),
        n <= 16,
    ensures
        r == le_value(bytes@.subrange(start as int, start + n)),
    decreases n,
{
    let ghost s = bytes@.subrange(start as int, start + n);
    if n == 0 {
        0
    } else {
        // the length of a vector fits a usize, so `start + 1` does too
        let _len = bytes.len();
        let rest = read_le(bytes, start + 1, n - 1);
        proof {
            lemma_pow256_mono((n - 1) as nat, 15);
            assert(s.drop_first() == bytes@.subrange(start + 1, start + n));
            lemma_le_value_bound(s.drop_first());
            lemma_pow256_values();
            assert(pow256(15) == 0x1_0000_0000_0000_0000_0000_0000_0000_00) by {
                reveal_with_fuel(pow256, 16);
            }
        }
        (bytes[start] as u128) + 256 * rest
    }
}

/// Appends `src[from..to]` to `out`.
fn append_range(out: &mut Vec<u8>, src: &Vec<u8>, from: usize, to: usize)
    requires
        from <= to <= src@.len(),
    ensures
        final(out)@ == old(out)@ + src@.subrange(from as int, to as int),
{
    let mut i: usize = from;
    while i < to
        invariant
            from <= i <= to <= src@.len(),
            out@ == old(out)@ + src@.subrange(from as int, i as int),
        decreases to - i,
    {
        out.push(src[i]);
        proof {
            assert(src@.subrange(from as int, i + 1) == src@.subrange(from as int, i as int).push(
                src@[i as int],
            ));
        }
        i += 1;
    }
}

/// The bytes of a request to run the function on `vertex`, carrying the
/// serialized auxiliary information `aux`.
pub fn encode_command(id: RequestID, vertex: VertexID, aux: &Vec<u8>) -> (r: Vec<u8>)
    ensures
        r@ == command_bytes(id, vertex, aux@),
{
    let mut out: Vec<u8> = Vec::new();
    push_le(&mut out, id, 16);
    push_le(&mut out, vertex as u128, 4);
    push_le(&mut out, aux.len() as u128, 8);
    append_range(&mut out, aux, 0, aux.len());
    assert(aux@.subrange(0, aux@.len() as int) == aux@);
    out
}

/// The bytes of the answer to request `id`, carrying the serialized
/// result `payload`.
pub fn encode_response(id: RequestID, payload: &Vec<u8>) -> (r: Vec<u8>)
    ensures
        r@ == response_bytes(id, payload@),
{
    let mut out: Vec<u8> = Vec::new();
    push_le(&mut out, id, 16);
    push_le(&mut out, payload.len() as u128, 8);
    append_range(&mut out, payload, 0, payload.len());
    assert(payload@.subrange(0, payload@.len() as int) == payload@);
    out
}

/// Reads the request at the front of `bytes`: its identifier, target
/// vertex, auxiliary payload and the number of bytes it takes. `None`
/// while `bytes` holds no complete request.
pub fn parse_command(bytes: &Vec<u8>) -> (r: Option<(RequestID, VertexID, Vec<u8>, usize)>)
    ensures
        match r {
            None => parsed_command(bytes@) is None,
            Some((id, vertex, aux, used)) => parsed_command(bytes@) == Some(
                (id, vertex, aux@, used as nat),
            ),
        },
{
    let len = bytes.len();
    if len < COMMAND_HEADER_LEN {
        return None;
    }
    let id = read_le(bytes, 0, 16);
    let vertex = read_le(bytes, 16, 4);
    let n = read_le(bytes, 20, 8);
    proof {
        lemma_le_value_bound(bytes@.subrange(0, 16));
        lemma_le_value_bound(bytes@.subrange(16, 20));
        lemma_pow256_values();
    }
    if n > (len - COMMAND_HEADER_LEN) as u128 {
        return None;
    }
    let end = COMMAND_HEADER_LEN + n as usize;
    let mut aux: Vec<u8> = Vec::new();
    append_range(&mut aux, bytes, COMMAND_HEADER_LEN, end);
    Some((id, vertex as u32, aux, end))
}

/// Reads the response at the front of `bytes`: its request identifier,
/// result payload and the number of bytes it takes. `None` while `bytes`
/// holds no complete response.
pub fn parse_response(bytes: &Vec<u8>) -> (r: Option<(RequestID, Vec<u8>, usize)>)
    ensures
        match r {
            None => parsed_response(bytes@) is None,
            Some((id, payload, used)) => parsed_response(bytes@) == Some(
                (id, payload@, used as nat),
            ),
        },
{
    let len = bytes.len();
    if len < RESPONSE_HEADER_LEN {
        return None;
    }
    let id = read_le(bytes, 0, 16);
    let n = read_le(bytes, 16, 8);
    proof {
        lemma_le_value_bound(bytes@.subrange(0, 16));
        lemma_pow256_values();
    }
    if n > (len - RESPONSE_HEADER_LEN) as u128 {
        return None;
    }
    let end = RESPONSE_HEADER_LEN + n as usize;
    let mut payload: Vec<u8> = Vec::new();
    append_range(&mut payload, bytes, RESPONSE_HEADER_LEN, end);
    Some((id, payload, end))
}

/// Requests written one after another, each whole.
pub open spec fn commands_bytes(cmds: Seq<(RequestID, VertexID, Seq<u8>)>) -> Seq<u8>
    decreases cmds.len(),
{
    if cmds.len() == 0 {
        Seq::empty()
    } else {
        command_bytes(cmds[0].0, cmds[0].1, cmds[0].2) + commands_bytes(cmds.drop_first())
    }
}

/// Requests read off the front of `s` one after another, as long as a
/// complete one is there.
pub open spec fn parsed_commands(s: Seq<u8>) -> Seq<(RequestID, VertexID, Seq<u8>)>
    decreases s.len(),
{
    match parsed_command(s) {
        Some((id, vertex, aux, used)) => if 0 < used <= s.len() {
            seq![(id, vertex, aux)] + parsed_commands(s.subrange(used as int, s.len() as int))
        } else {
            Seq::empty()
        },
        None => Seq::empty(),
    }
}

/// A request read off the front of a stream is the request that was
/// written there, whatever follows it.
pub proof fn lemma_command_round_trip(
    id: RequestID,
    vertex: VertexID,
    aux: Seq<u8>,
    rest: Seq<u8>,
)
    requires
        aux.len() <= u64::MAX,
    ensures
        parsed_command(command_bytes(id, vertex, aux) + rest) == Some(
            (id, vertex, aux, command_bytes(id, vertex, aux).len()),
        ),
        command_bytes(id, vertex, aux).len() == COMMAND_HEADER_LEN + aux.len(),
{
    lemma_pow256_values();
    lemma_le_bytes_len(id as nat, 16);
    lemma_le_bytes_len(vertex as nat, 4);
    lemma_le_bytes_len(aux.len(), 8);
    lemma_le_round_trip(id as nat, 16);
    lemma_le_round_trip(vertex as nat, 4);
    lemma_le_round_trip(aux.len(), 8);
    let c = command_bytes(id, vertex, aux);
    let s = c + rest;
    assert(s.subrange(0, 16) == le_bytes(id as nat, 16));
    assert(s.subrange(16, 20) == le_bytes(vertex as nat, 4));
    assert(s.subrange(20, 28) == le_bytes(aux.len(), 8));
    assert(s.subrange(28, 28 + aux.len() as int) == aux);
}

/// Whole requests written back to back, as the per-peer send lock makes
/// them, are read back as the same requests in the same order: no two
/// calls' bytes mix.
pub proof fn lemma_commands_do_not_interleave(cmds: Seq<(RequestID, VertexID, Seq<u8>)>)
    requires
        forall|i: int| 0 <= i < cmds.len() ==> #[trigger] cmds[i].2.len() <= u64::MAX,
    ensures
        parsed_commands(commands_bytes(cmds)) == cmds,
    decreases cmds.len(),
{
    if cmds.len() > 0 {
        let c = command_bytes(cmds[0].0, cmds[0].1, cmds[0].2);
        let tail = cmds.drop_first();
        assert(cmds[0].2.len() <= u64::MAX);
        assert forall|i: int| 0 <= i < tail.len() implies #[trigger] tail[i].2.len() <= u64::MAX by {
            assert(tail[i] == cmds[i + 1]);
        }
        lemma_commands_do_not_interleave(tail);
        lemma_command_round_trip(cmds[0].0, cmds[0].1, cmds[0].2, commands_bytes(tail));
        let s = commands_bytes(cmds);
        assert(s.subrange(c.len() as int, s.len() as int) == commands_bytes(tail));
        assert(cmds == seq![cmds[0]] + tail);
    } else {
        assert(parsed_command(Seq::<u8>::empty()) is None);
    }
}

/// A response read off the front of a stream is the response that was
/// written there, whatever follows it.
pub proof fn lemma_response_round_trip(id: RequestID, payload: Seq<u8>, rest: Seq<u8>)
    requires
        payload.len() <= u64::MAX,
    ensures
        parsed_response(response_bytes(id, payload) + rest) == Some(
            (id, payload, response_bytes(id, payload).len()),
        ),
        response_bytes(id, payload).len() == RESPONSE_HEADER_LEN + payload.len(),
{
    lemma_pow256_values();
    lemma_le_bytes_len(id as nat, 16);
    lemma_le_bytes_len(payload.len(), 8);
    lemma_le_round_trip(id as nat, 16);
    lemma_le_round_trip(payload.len(), 8);
    let s = response_bytes(id, payload) + rest;
    assert(s.subrange(0, 16) == le_bytes(id as nat, 16));
    assert(s.subrange(16, 24) == le_bytes(payload.len(), 8));
    assert(s.subrange(24, 24 + payload.len() as int) == payload);
}

/// Calls waiting for their response: the completion slot of each
/// outstanding request, under its identifier.
pub struct PendingTable<S> {
    slots: HashMap<RequestID, S>,
}

impl<S> View for PendingTable<S> {
    type V = Map<RequestID, S>;

    closed spec fn view(&self) -> Map<RequestID, S> {
        self.slots@
    }
}

impl<S> PendingTable<S> {
    /// A table with no call outstanding.
    pub fn new() -> (r: Self)
        ensures
            r@ == Map::<RequestID, S>::empty(),
    {
        PendingTable { slots: HashMap::new() }
    }

    /// Registers `slot` under `id`. An identifier already in use is
    /// refused and the slot handed back; the table is then unchanged.
    pub fn register(&mut self, id: RequestID, slot: S) -> (r: Result<(), S>)
        ensures
            old(self)@.contains_key(id) ==> r == Err::<(), S>(slot) && final(self)@ == old(self)@,
            !old(self)@.contains_key(id) ==> r is Ok && final(self)@ == old(self)@.insert(id, slot),
            r is Err ==> old(self)@.len() > 0,
    {
        proof {
            if self@.contains_key(id) {
                assert(self.slots@.dom().finite());
                vstd::set_lib::lemma_set_empty_equivalency_len(self@.dom());
            }
        }
        if self.slots.contains_key(&id) {
            Err(slot)
        } else {
            self.slots.insert(id, slot);
            Ok(())
        }
    }

    /// Removes the entry of `id` and hands back its slot, so that the
    /// response can be delivered to it. A response whose request has no
    /// entry finds `None` and is dropped.
    pub fn take(&mut self, id: RequestID) -> (r: Option<S>)
        ensures
            final(self)@ == old(self)@.remove(id),
            r == (if old(self)@.contains_key(id) {
                Some(old(self)@[id])
            } else {
                None::<S>
            }),
    {
        self.slots.remove(&id)
    }

    /// Whether a call with identifier `id` is outstanding.
    pub fn contains(&self, id: RequestID) -> (r: bool)
        ensures
            r == self@.contains_key(id),
    {
        self.slots.contains_key(&id)
    }

    /// The number of outstanding calls.
    pub fn len(&self) -> (r: usize)
        ensures
            r == self@.len(),
    {
        self.slots.len()
    }

    /// Whether no call is outstanding.
    pub fn is_empty(&self) -> (r: bool)
        ensures
            r == (self@ == Map::<RequestID, S>::empty()),
    {
        proof {
            if self@.len() == 0 {
                self@.dom().lemma_len0_is_empty();
                assert(self@ == Map::<RequestID, S>::empty());
            }
        }
        self.slots.len() == 0
    }
}

/// A request ready to go out: the peer to send it to and the bytes to
/// write there, in one piece, under that peer's send lock.
pub struct OutgoingCall {
    pub request_id: RequestID,
    pub machine: MachineID,
    pub frame: Vec<u8>,
}

/// Relies on uuid::Uuid::new_v4 (a random version-4 identifier) and
/// Uuid::as_u128 (its 128 bits). Nothing is known of the value drawn.
#[verifier::external_body]
fn fresh_request_id() -> (r: RequestID) {
    uuid::Uuid::new_v4().as_u128()
}

impl RemoteVertex {
    /// Prepares the call that runs the function on `vertex_id` at this
    /// vertex's owner under request identifier `id`: the completion slot
    /// is registered before any byte is sent, and the request carries
    /// `aux`. An identifier already in use is refused and the slot
    /// handed back, with the table unchanged.
    pub fn start_execute_with_id<S>(
        &self,
        id: RequestID,
        vertex_id: VertexID,
        pending: &mut PendingTable<S>,
        slot: S,
        aux: &Vec<u8>,
    ) -> (r: Result<OutgoingCall, S>)
        ensures
            old(pending)@.contains_key(id) ==> r == Err::<OutgoingCall, S>(slot) && final(pending)@
                == old(pending)@,
            !old(pending)@.contains_key(id) ==> r is Ok && final(pending)@ == old(pending)@.insert(
                id,
                slot,
            ),
            r is Err ==> old(pending)@.len() > 0,
            r matches Ok(call) ==> call.request_id == id && call.machine == self.spec_location()
                && call.frame@ == command_bytes(id, vertex_id, aux@),
    {
        match pending.register(id, slot) {
            Err(slot) => Err(slot),
            Ok(()) => {
                let frame = encode_command(id, vertex_id, aux);
                Ok(OutgoingCall { request_id: id, machine: self.location(), frame })
            },
        }
    }

    /// Prepares a call as `start_execute_with_id` does, under a freshly
    /// drawn random identifier. `Err` hands the slot back when the drawn
    /// identifier is already outstanding.
    pub fn start_execute<S>(
        &self,
        vertex_id: VertexID,
        pending: &mut PendingTable<S>,
        slot: S,
        aux: &Vec<u8>,
    ) -> (r: Result<OutgoingCall, S>)
        ensures
            r matches Err(s) ==> s == slot && final(pending)@ == old(pending)@,
            r is Err ==> old(pending)@.len() > 0,
            r matches Ok(call) ==> !old(pending)@.contains_key(call.request_id) && final(pending)@
                == old(pending)@.insert(call.request_id, slot) && call.machine
                == self.spec_location() && call.frame@ == command_bytes(
                call.request_id,
                vertex_id,
                aux@,
            ),
    {
        let id = fresh_request_id();
        self.start_execute_with_id(id, vertex_id, pending, slot, aux)
    }
}

/// A call registered on a table where it was absent, whose request a
/// peer reads and answers under the identifier it read, gets back the
/// peer's payload through its own slot, and the table is left as it
/// was: no entry is leaked.
pub proof fn lemma_round_trip_leaves_no_entry<S>(
    table: Map<RequestID, S>,
    id: RequestID,
    slot: S,
    vertex: VertexID,
    aux: Seq<u8>,
    payload: Seq<u8>,
)
    requires
        !table.contains_key(id),
        aux.len() <= u64::MAX,
        payload.len() <= u64::MAX,
    ensures
        ({
            let read_id = parsed_command(command_bytes(id, vertex, aux)).unwrap().0;
            let answer = parsed_response(response_bytes(read_id, payload)).unwrap();
            &&& answer.0 == id
            &&& answer.1 == payload
            &&& table.insert(id, slot).contains_key(answer.0)
            &&& table.insert(id, slot)[answer.0] == slot
            &&& table.insert(id, slot).remove(answer.0) == table
        }),
{
    lemma_command_round_trip(id, vertex, aux, Seq::empty());
    assert(command_bytes(id, vertex, aux) + Seq::<u8>::empty() == command_bytes(id, vertex, aux));
    lemma_response_round_trip(id, payload, Seq::empty());
    assert(response_bytes(id, payload) + Seq::<u8>::empty() == response_bytes(id, payload));
    assert(table.insert(id, slot).remove(id) =~= table);
}

/// Calls outstanding together under distinct identifiers each get their
/// own slot back, in whichever order their responses arrive.
pub proof fn lemma_responses_reach_their_own_call<S>(
    table: Map<RequestID, S>,
    id1: RequestID,
    slot1: S,
    id2: RequestID,
    slot2: S,
)
    requires
        id1 != id2,
    ensures
        table.insert(id1, slot1).insert(id2, slot2)[id1] == slot1,
        table.insert(id1, slot1).insert(id2, slot2)[id2] == slot2,
        table.insert(id1, slot1).insert(id2, slot2).remove(id2)[id1] == slot1,
        table.insert(id1, slot1).insert(id2, slot2).remove(id1)[id2] == slot2,
{
}

/// The table after calls under `ids` registered `slots`, one after
/// another, starting from `table`.
pub open spec fn registered_all<S>(
    table: Map<RequestID, S>,
    ids: Seq<RequestID>,
    slots: Seq<S>,
) -> Map<RequestID, S>
    decreases ids.len(),
{
    if ids.len() == 0 || slots.len() == 0 {
        table
    } else {
        registered_all(table, ids.drop_last(), slots.drop_last()).insert(ids.last(), slots.last())
    }
}

proof fn lemma_registered_contains<S>(
    table: Map<RequestID, S>,
    ids: Seq<RequestID>,
    slots: Seq<S>,
    j: int,
)
    requires
        ids.len() == slots.len(),
        0 <= j < ids.len(),
    ensures
        registered_all(table, ids, slots).contains_key(ids[j]),
    decreases ids.len(),
{
    if j < ids.len() - 1 {
        lemma_registered_contains(table, ids.drop_last(), slots.drop_last(), j);
    }
}

proof fn lemma_registered_slot<S>(
    table: Map<RequestID, S>,
    ids: Seq<RequestID>,
    slots: Seq<S>,
    i: int,
)
    requires
        ids.len() == slots.len(),
        ids.no_duplicates(),
        0 <= i < ids.len(),
    ensures
        registered_all(table, ids, slots).contains_key(ids[i]),
        registered_all(table, ids, slots)[ids[i]] == slots[i],
    decreases ids.len(),
{
    if i < ids.len() - 1 {
        assert(ids[i] != ids[ids.len() - 1]);
        lemma_registered_slot(table, ids.drop_last(), slots.drop_last(), i);
    }
}

/// Calls started one after another on one table, each under an
/// identifier not outstanding when it started (as `start_execute`
/// ensures), have pairwise distinct identifiers; and whichever responses
/// have been delivered already, the response to call `i` finds call
/// `i`'s own slot.
pub proof fn lemma_each_call_gets_its_own_slot<S>(
    table: Map<RequestID, S>,
    ids: Seq<RequestID>,
    slots: Seq<S>,
    i: int,
    delivered: Set<RequestID>,
)
    requires
        ids.len() == slots.len(),
        forall|j: int|
            0 <= j < ids.len() ==> !(#[trigger] registered_all(
                table,
                ids.take(j),
                slots.take(j),
            )).contains_key(ids[j]),
        0 <= i < ids.len(),
        !delivered.contains(ids[i]),
    ensures
        ids.no_duplicates(),
        registered_all(table, ids, slots).remove_keys(delivered).contains_key(ids[i]),
        registered_all(table, ids, slots).remove_keys(delivered)[ids[i]] == slots[i],
{
    assert forall|j: int, k: int| 0 <= j < k < ids.len() implies ids[j] != ids[k] by {
        lemma_registered_contains(table, ids.take(k), slots.take(k), j);
        assert(ids.take(k)[j] == ids[j]);
        assert(!registered_all(table, ids.take(k), slots.take(k)).contains_key(ids[k]));
    }
    assert(ids.no_duplicates());
    lemma_registered_slot(table, ids, slots, i);
}

} // verus!
