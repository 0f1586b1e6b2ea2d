//! The UDP binary-protocol connector state and codec.
//!
//! Outbound traffic is fixed-size frames: a 413-byte subscribe frame, a
//! 509-byte variable-write frame and a 505-byte command frame. Inbound
//! datagrams carry a 5-byte header followed by repeated 8-byte records of a
//! little-endian subscription index and a little-endian single-precision
//! value. The socket itself lives outside the library; this module owns the
//! subscription table, the cached snapshot, and every byte layout.
use crate::snapshot::Snapshot;
use crate::value::SimValue;
use crate::CoreError;
use vstd::prelude::*;
use vstd::string::StringSliceAdditionalSpecFns;

verus! {

/// The subscribe frame tag: the bytes of `RREF`.
pub open spec fn rref_tag() -> Seq<u8> {
    seq![0x52u8, 0x52u8, 0x45u8, 0x46u8]
}

/// The variable-write frame tag: the bytes of `DREF`.
pub open spec fn dref_tag() -> Seq<u8> {
    seq![0x44u8, 0x52u8, 0x45u8, 0x46u8]
}

/// The command frame tag: the bytes of `CMND`.
pub open spec fn cmnd_tag() -> Seq<u8> {
    seq![0x43u8, 0x4du8, 0x4eu8, 0x44u8]
}

/// `n` zero bytes.
pub open spec fn zero_bytes(n: int) -> Seq<u8> {
    Seq::new(n as nat, |i: int| 0u8)
}

/// The little-endian four-byte rendering of a 32-bit word.
pub open spec fn le4(v: u32) -> Seq<u8> {
    seq![(v & 0xff) as u8, ((v >> 8) & 0xff) as u8, ((v >> 16) & 0xff) as u8, ((v >> 24) & 0xff) as u8]
}

/// The 32-bit word read from four little-endian bytes.
pub open spec fn le4_val(s: Seq<u8>) -> int {
    s[0] + 256 * s[1] + 65536 * s[2] + 16777216 * s[3]
}

/// A payload truncated to `cap` bytes, null-terminated and zero-padded to
/// fill `room` bytes.
pub open spec fn tail_section(payload: Seq<u8>, cap: int, room: int) -> Seq<u8> {
    let len = if payload.len() <= cap {
        payload.len() as int
    } else {
        cap
    };
    payload.take(len) + zero_bytes(room - len)
}

/// The 413-byte subscribe frame.
pub open spec fn subscribe_frame_spec(frequency: u32, index: u32, name: Seq<u8>) -> Seq<u8> {
    rref_tag() + seq![0u8] + le4(frequency) + le4(index) + tail_section(name, 400, 400)
}

/// The 509-byte variable-write frame; the value travels as the four
/// little-endian bytes of its single-precision bit pattern.
pub open spec fn write_frame_spec(value_bits: u32, name: Seq<u8>) -> Seq<u8> {
    dref_tag() + seq![0u8] + le4(value_bits) + tail_section(name, 500, 500)
}

/// The 505-byte command frame.
pub open spec fn command_frame_spec(name: Seq<u8>) -> Seq<u8> {
    cmnd_tag() + seq![0u8] + tail_section(name, 500, 500)
}

/// Appends `payload` truncated to `cap` bytes, then zero-pads until `frame`
/// is `total` bytes long.
#[verifier::loop_isolation(false)]
fn push_tail(frame: &mut Vec<u8>, payload: &[u8], cap: usize, total: usize)
    requires
        old(frame)@.len() + cap <= total,
    ensures
        final(frame)@ == old(frame)@ + tail_section(payload@, cap as int, (total
            - old(frame)@.len()) as int),
        final(frame)@.len() == total,
{
    let len = if payload.len() <= cap {
        payload.len()
    } else {
        cap
    };
    proof {
        assert(frame@ =~= old(frame)@ + payload@.take(0));
    }
    let mut i: usize = 0;
    while i < len
        invariant
            i <= len,
            frame@ == old(frame)@ + payload@.take(i as int),
        decreases len - i,
    {
        proof {
            assert(payload@.take(i as int + 1) =~= payload@.take(i as int).push(
                payload@[i as int],
            ));
        }
        frame.push(payload[i]);
        i += 1;
    }
    proof {
        assert(frame@ =~= old(frame)@ + payload@.take(len as int) + zero_bytes(0));
    }
    while frame.len() < total
        invariant
            frame@.len() >= old(frame)@.len() + len,
            frame@.len() <= total,
            frame@ == old(frame)@ + payload@.take(len as int) + zero_bytes((frame@.len() - old(
                frame,
            )@.len() - len) as int),
        decreases total - frame@.len(),
    {
        let ghost before = frame@;
        frame.push(0);
        proof {
            assert(frame@ =~= old(frame)@ + payload@.take(len as int) + zero_bytes(
                (frame@.len() - old(frame)@.len() - len) as int,
            ));
        }
    }
    proof {
        assert(frame@ =~= old(frame)@ + tail_section(
            payload@,
            cap as int,
            (total - old(frame)@.len()) as int,
        ));
    }
}

/// Appends the four little-endian bytes of `v`.
fn push_le4(frame: &mut Vec<u8>, v: u32)
    ensures
        final(frame)@ == old(frame)@ + le4(v),
{
    frame.push((v & 0xff) as u8);
    frame.push(((v >> 8) & 0xff) as u8);
    frame.push(((v >> 16) & 0xff) as u8);
    frame.push(((v >> 24) & 0xff) as u8);
    proof {
        assert(frame@ =~= old(frame)@ + le4(v));
    }
}

/// Reads a 32-bit word from four little-endian bytes.
fn read_le4(data: &[u8], pos: usize) -> (r: u32)
    requires
        pos + 4 <= data@.len(),
    ensures
        r == le4_val(data@.subrange(pos as int, pos as int + 4)),
{
    let b0 = data[pos] as u32;
    let b1 = data[pos + 1] as u32;
    let b2 = data[pos + 2] as u32;
    let b3 = data[pos + 3] as u32;
    b0 + b1 * 256 + b2 * 65536 + b3 * 16777216
}

/// The position of the first subscription entry carrying `index`, or `-1`.
pub open spec fn find_subscription(subs: Seq<(String, u32)>, index: u32) -> int
    decreases subs.len(),
{
    if subs.len() == 0 {
        -1
    } else if subs[0].1 == index {
        0
    } else {
        let r = find_subscription(subs.drop_first(), index);
        if r < 0 {
            -1
        } else {
            r + 1
        }
    }
}

proof fn lemma_find_subscription_at(subs: Seq<(String, u32)>, k: int)
    requires
        0 <= k < subs.len(),
        forall|j: int| 0 <= j < k ==> (#[trigger] subs[j].1) != subs[k].1,
    ensures
        find_subscription(subs, subs[k].1) == k,
    decreases k,
{
    if k > 0 {
        lemma_find_subscription_at(subs.drop_first(), k - 1);
    }
}

proof fn lemma_find_subscription_none(subs: Seq<(String, u32)>, index: u32)
    requires
        forall|j: int| 0 <= j < subs.len() ==> (#[trigger] subs[j].1) != index,
    ensures
        find_subscription(subs, index) == -1,
    decreases subs.len(),
{
    if subs.len() > 0 {
        lemma_find_subscription_none(subs.drop_first(), index);
    }
}

/// Finds the position of the first subscription entry carrying `index`.
#[verifier::loop_isolation(false)]
fn find_index_position(subs: &Vec<(String, u32)>, index: u32) -> (r: Option<usize>)
    ensures
        match r {
            Some(at) => at < subs@.len() && subs@[at as int].1 == index && find_subscription(
                subs@,
                index,
            ) == at,
            None => find_subscription(subs@, index) == -1,
        },
{
    let mut at: usize = 0;
    while at < subs.len()
        invariant
            at <= subs@.len(),
            forall|j: int| 0 <= j < at ==> (#[trigger] subs@[j].1) != index,
        decreases subs@.len() - at,
    {
        if subs[at].1 == index {
            proof {
                lemma_find_subscription_at(subs@, at as int);
            }
            return Some(at);
        }
        at += 1;
    }
    proof {
        lemma_find_subscription_none(subs@, index);
    }
    None
}

/// The snapshot after applying the 8-byte records of a datagram from `pos`
/// on: each record whose index is subscribed updates that variable; records
/// with unknown indices are dropped silently.
pub open spec fn apply_records(
    subs: Seq<(String, u32)>,
    cache: Map<Seq<char>, SimValue>,
    data: Seq<u8>,
    pos: int,
) -> Map<Seq<char>, SimValue>
    decreases data.len() - pos,
{
    if pos >= 0 && pos + 8 <= data.len() {
        let index = le4_val(data.subrange(pos, pos + 4));
        let bits = le4_val(data.subrange(pos + 4, pos + 8));
        let at = find_subscription(subs, index as u32);
        let next = if at >= 0 {
            cache.insert(
                subs[at].0@,
                SimValue { micros: SimValue::f32_bits_micros_spec(bits as u32) as i64 },
            )
        } else {
            cache
        };
        apply_records(subs, next, data, pos + 8)
    } else {
        cache
    }
}

/// The snapshot after one inbound datagram: only datagrams that begin with
/// the subscribe tag carry records; anything else leaves the snapshot
/// untouched.
pub open spec fn datagram_result(
    subs: Seq<(String, u32)>,
    cache: Map<Seq<char>, SimValue>,
    data: Seq<u8>,
) -> Map<Seq<char>, SimValue> {
    if data.len() >= 5 && data.subrange(0, 4) == rref_tag() {
        apply_records(subs, cache, data, 5)
    } else {
        cache
    }
}

/// The UDP binary-protocol connector: subscription bookkeeping and the
/// cached variable snapshot. The socket lives with the caller; this state
/// machine decides what every frame holds and what every datagram means.
#[derive(Debug)]
pub struct XPlaneClient {
    /// The simulator address, kept for the socket's owner.
    pub address: String,
    /// Whether a socket is currently bound for this connector.
    pub connected: bool,
    /// Subscribed variable names; the entry at position `i` carries index
    /// `i + 1`, so indices are unique and strictly increasing.
    pub subscriptions: Vec<(String, u32)>,
    /// The latest values received, by variable name.
    pub cache: Snapshot,
}

impl XPlaneClient {
    /// The subscription table invariant: the entry at position `i` carries
    /// index `i + 1`. The cached snapshot has unique keys.
    pub open spec fn wf(self) -> bool {
        &&& self.cache.wf()
        &&& forall|i: int|
            0 <= i < self.subscriptions@.len() ==> (#[trigger] self.subscriptions@[i].1) == i + 1
    }

    /// A fresh, unconnected connector for the given simulator address.
    pub fn new(address: &str) -> (r: XPlaneClient)
        ensures
            r.wf(),
            !r.connected,
            r.address@ == address@,
            r.subscriptions@.len() == 0,
            r.cache@ == Map::<Seq<char>, SimValue>::empty(),
    {
        XPlaneClient {
            address: address.to_owned(),
            connected: false,
            subscriptions: Vec::new(),
            cache: Snapshot::new(),
        }
    }

    /// Records that the caller bound a socket: the connector is connected.
    pub fn mark_connected(&mut self)
        requires
            old(self).wf(),
        ensures
            final(self).wf(),
            final(self).connected,
            final(self).address == old(self).address,
            final(self).subscriptions == old(self).subscriptions,
            final(self).cache == old(self).cache,
    {
        self.connected = true;
    }

    /// Disconnects: the subscription table lives only for one connection and
    /// is discarded.
    pub fn disconnect(&mut self)
        requires
            old(self).wf(),
        ensures
            final(self).wf(),
            !final(self).connected,
            final(self).subscriptions@.len() == 0,
            final(self).address == old(self).address,
            final(self).cache == old(self).cache,
    {
        self.connected = false;
        self.subscriptions.clear();
    }

    /// Subscribes a variable: assigns the next index (one past the previous
    /// one, so indices never collide) and returns the subscribe frame to
    /// send. Fails when not connected.
    pub fn subscribe(&mut self, variable: &str, frequency: i32) -> (r: Result<Vec<u8>, CoreError>)
        requires
            old(self).wf(),
            old(self).subscriptions@.len() < 0xffff_ffff,
        ensures
            final(self).wf(),
            final(self).connected == old(self).connected,
            final(self).address == old(self).address,
            final(self).cache == old(self).cache,
            !old(self).connected ==> r == Err::<Vec<u8>, CoreError>(CoreError::NotConnected)
                && final(self).subscriptions == old(self).subscriptions,
            old(self).connected ==> {
                &&& final(self).subscriptions@.len() == old(self).subscriptions@.len() + 1
                &&& final(self).subscriptions@.drop_last() == old(self).subscriptions@
                &&& final(self).subscriptions@.last().0@ == variable@
                &&& final(self).subscriptions@.last().1 == old(self).subscriptions@.len() + 1
                &&& r matches Ok(frame) && frame@ == subscribe_frame_spec(
                    frequency as u32,
                    (old(self).subscriptions@.len() + 1) as u32,
                    variable.spec_bytes(),
                )
            },
    {
        if !self.connected {
            return Err(CoreError::NotConnected);
        }
        let index: u32 = (self.subscriptions.len() as u32) + 1;
        self.subscriptions.push((variable.to_owned(), index));
        proof {
            assert(self.subscriptions@.drop_last() =~= old(self).subscriptions@);
        }
        let mut frame: Vec<u8> = Vec::new();
        frame.push(0x52);
        frame.push(0x52);
        frame.push(0x45);
        frame.push(0x46);
        frame.push(0);
        push_le4(&mut frame, frequency as u32);
        push_le4(&mut frame, index);
        push_tail(&mut frame, variable.as_bytes(), 400, 413);
        proof {
            assert(frame@ =~= subscribe_frame_spec(
                frequency as u32,
                index,
                variable.spec_bytes(),
            ));
        }
        Ok(frame)
    }

    /// Builds the frame that writes a value to a simulator variable; the
    /// caller supplies the single-precision bit pattern and sends the frame.
    /// Fails when not connected.
    pub fn write_variable(&self, variable: &str, value_bits: u32) -> (r: Result<
        Vec<u8>,
        CoreError,
    >)
        ensures
            !self.connected ==> r == Err::<Vec<u8>, CoreError>(CoreError::NotConnected),
            self.connected ==> (r matches Ok(frame) && frame@ == write_frame_spec(
                value_bits,
                variable.spec_bytes(),
            )),
    {
        if !self.connected {
            return Err(CoreError::NotConnected);
        }
        let mut frame: Vec<u8> = Vec::new();
        frame.push(0x44);
        frame.push(0x52);
        frame.push(0x45);
        frame.push(0x46);
        frame.push(0);
        push_le4(&mut frame, value_bits);
        push_tail(&mut frame, variable.as_bytes(), 500, 509);
        proof {
            assert(frame@ =~= write_frame_spec(value_bits, variable.spec_bytes()));
        }
        Ok(frame)
    }

    /// Builds the frame that executes a simulator command. Fails when not
    /// connected.
    pub fn execute_command(&self, command: &str) -> (r: Result<Vec<u8>, CoreError>)
        ensures
            !self.connected ==> r == Err::<Vec<u8>, CoreError>(CoreError::NotConnected),
            self.connected ==> (r matches Ok(frame) && frame@ == command_frame_spec(
                command.spec_bytes(),
            )),
    {
        if !self.connected {
            return Err(CoreError::NotConnected);
        }
        let mut frame: Vec<u8> = Vec::new();
        frame.push(0x43);
        frame.push(0x4d);
        frame.push(0x4e);
        frame.push(0x44);
        frame.push(0);
        push_tail(&mut frame, command.as_bytes(), 500, 505);
        proof {
            assert(frame@ =~= command_frame_spec(command.spec_bytes()));
        }
        Ok(frame)
    }

    /// The cached value of a variable.
    pub fn read_variable(&self, variable: &str) -> (r: Result<SimValue, CoreError>)
        requires
            self.wf(),
        ensures
            self.cache@.contains_key(variable@) ==> r == Ok::<SimValue, CoreError>(
                self.cache@[variable@],
            ),
            !self.cache@.contains_key(variable@) ==> r == Err::<SimValue, CoreError>(
                CoreError::NotFound,
            ),
    {
        match self.cache.lookup(variable) {
            Some(v) => Ok(v),
            None => Err(CoreError::NotFound),
        }
    }

    /// The latest cached snapshot; empty before the first successful poll.
    pub fn get_all_variables(&self) -> (r: Snapshot)
        requires
            self.wf(),
        ensures
            r.wf(),
            r@ == self.cache@,
    {
        self.cache.duplicate()
    }

    /// Applies one inbound datagram to the snapshot: every well-formed
    /// record whose index is subscribed updates that variable; records with
    /// unknown indices and datagrams without the expected tag are dropped
    /// silently — noise, not errors.
    #[verifier::loop_isolation(false)]
    pub fn apply_datagram(&mut self, data: &[u8])
        requires
            old(self).wf(),
        ensures
            final(self).wf(),
            final(self).cache@ == datagram_result(
                old(self).subscriptions@,
                old(self).cache@,
                data@,
            ),
            final(self).connected == old(self).connected,
            final(self).address == old(self).address,
            final(self).subscriptions == old(self).subscriptions,
    {
        if data.len() < 5 {
            proof {
                assert(final(self).cache@ =~= datagram_result(
                    self.subscriptions@,
                    self.cache@,
                    data@,
                ));
            }
            return ;
        }
        if !(data[0] == 0x52 && data[1] == 0x52 && data[2] == 0x45 && data[3] == 0x46) {
            proof {
                assert(data@.subrange(0, 4) != rref_tag()) by {
                    assert(data@.subrange(0, 4)[0] == data@[0]);
                    assert(data@.subrange(0, 4)[1] == data@[1]);
                    assert(data@.subrange(0, 4)[2] == data@[2]);
                    assert(data@.subrange(0, 4)[3] == data@[3]);
                }
            }
            return ;
        }
        proof {
            assert(data@.subrange(0, 4) =~= rref_tag());
        }
        let mut pos: usize = 5;
        while data.len() - pos >= 8
            invariant
                5 <= pos <= data@.len(),
                self.cache.wf(),
                self.connected == old(self).connected,
                self.address == old(self).address,
                self.subscriptions == old(self).subscriptions,
                apply_records(self.subscriptions@, self.cache@, data@, pos as int)
                    == datagram_result(old(self).subscriptions@, old(self).cache@, data@),
            decreases data@.len() - pos,
        {
            let index_word = read_le4(data, pos);
            let bits = read_le4(data, pos + 4);
            match find_index_position(&self.subscriptions, index_word) {
                Some(at) => {
                    let name = self.subscriptions[at].0.clone();
                    let value = SimValue::from_f32_bits(bits);
                    self.cache.set(name.as_str(), value);
                },
                None => {},
            }
            pos += 8;
        }
        proof {
            assert(final(self).cache@ =~= datagram_result(
                old(self).subscriptions@,
                old(self).cache@,
                data@,
            ));
        }
    }
}

/// A poll with no new inbound data leaves the snapshot unchanged: a datagram
/// too short to carry a record, or one without the subscribe tag, changes
/// nothing — and a poll that receives no datagram applies none at all.
pub proof fn lemma_empty_poll_keeps_snapshot(
    subs: Seq<(String, u32)>,
    cache: Map<Seq<char>, SimValue>,
    data: Seq<u8>,
)
    requires
        data.len() < 13 || data.subrange(0, 4) != rref_tag(),
    ensures
        datagram_result(subs, cache, data) == cache,
{
}

/// Subscription indices are strictly increasing and collision-free across
/// any sequence of subscribe calls within one session: the table invariant
/// pins the index of every entry to its position.
pub proof fn lemma_subscription_indices_increase(c: XPlaneClient)
    requires
        c.wf(),
    ensures
        forall|i: int, j: int|
            0 <= i < j < c.subscriptions@.len() ==> (#[trigger] c.subscriptions@[i].1) < (
            #[trigger] c.subscriptions@[j].1),
{
}

} // verus!
