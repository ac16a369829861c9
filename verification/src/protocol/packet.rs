use vstd::prelude::*;
use crate::protocol::bytes::{be16, from_be16, lemma_be16, read_be16};
use crate::protocol::encoding::{Decode, DynSizedEncode, Encode};
use crate::protocol::packet_data::{
    lemma_value_round_trip, parse_value, PacketValue, WitcherPacketData,
};
use crate::protocol::stream::{
    eof, mismatch, ByteStream, DecodeError, DecodeErrorKind, EncodeError, Field,
};

verus! {

/// The two bytes that open every packet.
pub open spec fn head_bytes() -> Seq<u8> {
    seq![0xDEu8, 0xADu8]
}

/// The two bytes that close every packet.
pub open spec fn tail_bytes() -> Seq<u8> {
    seq![0xBEu8, 0xEFu8]
}

/// The number of bytes in a packet besides its payload: head, size field and tail.
pub const FRAME_SIZE: usize = 6;

/// The largest size that a packet's size field can announce.
pub const MAX_PACKET_SIZE: usize = 0xFFFF;

/// An ordered sequence of tagged values inside a fixed frame.
#[derive(Debug, PartialEq, Eq)]
pub struct WitcherPacket {
    pub(crate) payload: Vec<WitcherPacketData>,
}

/// The contents of the elements of a payload, in order.
pub open spec fn values_of(payload: Seq<WitcherPacketData>) -> Seq<PacketValue> {
    payload.map_values(|d: WitcherPacketData| d@)
}

impl View for WitcherPacket {
    type V = Seq<PacketValue>;

    closed spec fn view(&self) -> Seq<PacketValue> {
        values_of(self.payload@)
    }
}

/// The wire forms of the values of a payload one after the other, or the reason why
/// the first value without a wire form has none.
pub open spec fn payload_wire(p: Seq<PacketValue>) -> Result<Seq<u8>, EncodeError>
    decreases p.len(),
{
    if p.len() == 0 {
        Ok(Seq::empty())
    } else {
        match payload_wire(p.drop_last()) {
            Err(e) => Err(e),
            Ok(front) => match WitcherPacketData::encoded(p.last()) {
                Err(e) => Err(e),
                Ok(bytes) => Ok(front + bytes),
            },
        }
    }
}

/// The sum of the sizes of the values of a payload.
pub open spec fn payload_size(p: Seq<PacketValue>) -> nat
    decreases p.len(),
{
    if p.len() == 0 {
        0
    } else {
        payload_size(p.drop_last()) + WitcherPacketData::wire_size(p.last())
    }
}

/// `values`, found in `count` bytes, followed by what `rest` found.
pub open spec fn then_values(
    values: Seq<PacketValue>,
    count: nat,
    rest: Result<(Seq<PacketValue>, nat), DecodeError>,
) -> Result<(Seq<PacketValue>, nat), DecodeError> {
    match rest {
        Err(e) => Err(e),
        Ok((more, n)) => Ok((values + more, count + n)),
    }
}

/// What is left of a budget of bytes after `used` of them are spent: nothing, where
/// more was spent than was left.
pub open spec fn budget_after(budget: nat, used: nat) -> nat {
    if used >= budget {
        0
    } else {
        (budget - used) as nat
    }
}

/// The values read from the start of `bytes` while a budget of bytes lasts, and the
/// number of bytes they take. Each value takes the bytes it needs, and the value that
/// exhausts the budget is the last.
pub open spec fn parse_payload(bytes: Seq<u8>, budget: nat) -> Result<
    (Seq<PacketValue>, nat),
    DecodeError,
>
    decreases budget,
{
    if budget == 0 {
        Ok((Seq::empty(), 0))
    } else {
        match WitcherPacketData::parse(bytes) {
            Err(e) => Err(e),
            Ok((v, n)) => if n == 0 {
                Ok((seq![v], 0))
            } else {
                then_values(
                    seq![v],
                    n,
                    parse_payload(bytes.skip(n as int), budget_after(budget, n)),
                )
            },
        }
    }
}

/// Decoding a value takes at least the two bytes of its tag, and never more bytes than
/// there are.
pub proof fn lemma_value_parse_bounds(bytes: Seq<u8>)
    ensures
        WitcherPacketData::parse(bytes) matches Ok((_, n)) ==> 2 <= n <= bytes.len(),
{
    reveal(parse_value);
}

/// While the budget lasts, the payload is the next value followed by the payload that
/// the rest of the budget buys.
pub proof fn lemma_parse_payload_step(bytes: Seq<u8>, budget: nat)
    requires
        budget > 0,
    ensures
        match WitcherPacketData::parse(bytes) {
            Err(e) => parse_payload(bytes, budget) == Err::<(Seq<PacketValue>, nat), DecodeError>(
                e,
            ),
            Ok((v, n)) => parse_payload(bytes, budget) == then_values(
                seq![v],
                n,
                parse_payload(bytes.skip(n as int), budget_after(budget, n)),
            ),
        },
{
    lemma_value_parse_bounds(bytes);
}

/// Values found one run after the other are found together.
pub proof fn lemma_then_values_twice(
    a: Seq<PacketValue>,
    x: nat,
    b: Seq<PacketValue>,
    y: nat,
    rest: Result<(Seq<PacketValue>, nat), DecodeError>,
)
    ensures
        then_values(a, x, then_values(b, y, rest)) == then_values(a + b, x + y, rest),
{
    if rest is Ok {
        assert(a + (b + rest->Ok_0.0) =~= (a + b) + rest->Ok_0.0);
    }
}

/// Nothing, found in no bytes, followed by a result is that result.
pub proof fn lemma_then_values_none(rest: Result<(Seq<PacketValue>, nat), DecodeError>)
    ensures
        then_values(Seq::empty(), 0, rest) == rest,
{
    if rest is Ok {
        assert(Seq::<PacketValue>::empty() + rest->Ok_0.0 =~= rest->Ok_0.0);
    }
}

impl WitcherPacket {
    pub const HEAD: [u8; 2] = [0xDE, 0xAD];

    pub const TAIL: [u8; 2] = [0xBE, 0xEF];

    /// A packet without a payload.
    pub fn new() -> (p: Self)
        ensures
            p@ == Seq::<PacketValue>::empty(),
    {
        let p = Self { payload: Vec::new() };
        assert(p@ =~= Seq::<PacketValue>::empty());
        p
    }

    /// A packet with the given payload.
    pub fn from_payload(payload: Vec<WitcherPacketData>) -> (p: Self)
        ensures
            p@ == values_of(payload@),
    {
        Self { payload }
    }

    /// The size of the packet on the wire.
    pub fn size(&self) -> (n: usize)
        requires
            Self::wire_size(self@) <= usize::MAX,
        ensures
            n == Self::wire_size(self@),
    {
        self.encoded_size()
    }

    /// The packet with one more value at the end of its payload.
    pub fn append(self, data: WitcherPacketData) -> (p: Self)
        ensures
            p@ == self@.push(data@),
    {
        let mut p = self;
        p.payload.push(data);
        assert(p@ =~= self@.push(data@));
        p
    }

    pub fn append_int8(self, data: i8) -> (p: Self)
        ensures
            p@ == self@.push(PacketValue::Int8(data)),
    {
        self.append(WitcherPacketData::new_int8(data))
    }

    pub fn append_int16(self, data: i16) -> (p: Self)
        ensures
            p@ == self@.push(PacketValue::Int16(data)),
    {
        self.append(WitcherPacketData::new_int16(data))
    }

    pub fn append_int32(self, data: i32) -> (p: Self)
        ensures
            p@ == self@.push(PacketValue::Int32(data)),
    {
        self.append(WitcherPacketData::new_int32(data))
    }

    pub fn append_uint32(self, data: u32) -> (p: Self)
        ensures
            p@ == self@.push(PacketValue::UInt32(data)),
    {
        self.append(WitcherPacketData::new_uint32(data))
    }

    pub fn append_int64(self, data: i64) -> (p: Self)
        ensures
            p@ == self@.push(PacketValue::Int64(data)),
    {
        self.append(WitcherPacketData::new_int64(data))
    }

    pub fn append_utf8(self, data: &str) -> (p: Self)
        ensures
            p@ == self@.push(PacketValue::StringUTF8(data@)),
    {
        self.append(WitcherPacketData::new_string_utf8(data))
    }

    pub fn append_utf16(self, data: &str) -> (p: Self)
        ensures
            p@ == self@.push(PacketValue::StringUTF16(data@)),
    {
        self.append(WitcherPacketData::new_string_utf16(data))
    }

    /// The wire form of the packet.
    pub fn to_bytes(&self) -> (bytes: Result<Vec<u8>, EncodeError>)
        ensures
            match Self::encoded(self@) {
                Ok(wire) => bytes matches Ok(b) && b@ == wire,
                Err(e) => bytes == Err::<Vec<u8>, EncodeError>(e),
            },
    {
        let mut stream = ByteStream::new();
        match self.encode_into(&mut stream) {
            Ok(()) => {
                assert(Seq::<u8>::empty() + Self::encoded(self@)->Ok_0 =~= Self::encoded(
                    self@,
                )->Ok_0);
                Ok(stream.take_all())
            },
            Err(e) => Err(e),
        }
    }

    /// Reads one packet from the front of a stream; on error nothing is consumed.
    pub fn from_stream(stream: &mut ByteStream) -> (r: Result<WitcherPacket, DecodeError>)
        ensures
            match Self::parse(old(stream)@) {
                Ok((v, n)) => r matches Ok(x) && x@ == v && n <= old(stream)@.len()
                    && final(stream)@ == old(stream)@.skip(n as int),
                Err(e) => r == Err::<WitcherPacket, DecodeError>(e) && final(stream)@ == old(
                    stream,
                )@,
            },
    {
        Self::decode_from(stream)
    }

    /// The size of a packet with an empty payload.
    pub fn min_encoded_size() -> (n: usize)
        ensures
            n == FRAME_SIZE,
    {
        FRAME_SIZE
    }

    /// The elements of the payload, in order.
    pub fn payload(&self) -> (payload: &Vec<WitcherPacketData>)
        ensures
            values_of(payload@) == self@,
    {
        &self.payload
    }

    /// Gives up the packet for its payload.
    pub fn into_payload(self) -> (payload: Vec<WitcherPacketData>)
        ensures
            values_of(payload@) == self@,
    {
        self.payload
    }
}

/// Copies a payload element by element.
pub fn clone_payload(payload: &Vec<WitcherPacketData>) -> (copy: Vec<WitcherPacketData>)
    ensures
        values_of(copy@) == values_of(payload@),
{
    let mut copy: Vec<WitcherPacketData> = Vec::new();
    let mut i: usize = 0;
    while i < payload.len()
        invariant
            i <= payload.len(),
            copy@.len() == i,
            forall|j: int| 0 <= j < i ==> copy@[j]@ == payload@[j]@,
        decreases payload.len() - i,
    {
        copy.push(payload[i].clone());
        i += 1;
    }
    assert(values_of(copy@) =~= values_of(payload@));
    copy
}

impl Clone for WitcherPacket {
    fn clone(&self) -> (p: Self)
        ensures
            p@ == self@,
    {
        WitcherPacket { payload: clone_payload(&self.payload) }
    }
}

/// A payload with one more value at its end has that value's wire form at the end of
/// its own, unless a value before it has none.
pub proof fn lemma_payload_prefix_error(p: Seq<PacketValue>, i: int)
    requires
        0 <= i <= p.len(),
        payload_wire(p.take(i)) is Err,
    ensures
        payload_wire(p) == payload_wire(p.take(i)),
    decreases p.len() - i,
{
    if i < p.len() {
        assert(p.take(i + 1).drop_last() =~= p.take(i));
        lemma_payload_prefix_error(p, i + 1);
    } else {
        assert(p.take(i) =~= p);
    }
}

/// Every value of a payload, and every part of the payload before a value, is no
/// larger than the payload.
pub proof fn lemma_payload_size_parts(p: Seq<PacketValue>, i: int)
    requires
        0 <= i < p.len(),
    ensures
        payload_size(p.take(i)) + WitcherPacketData::wire_size(p[i]) == payload_size(
            p.take(i + 1),
        ),
        payload_size(p.take(i + 1)) <= payload_size(p),
    decreases p.len() - i,
{
    assert(p.take(i + 1).drop_last() =~= p.take(i));
    if i + 1 < p.len() {
        lemma_payload_size_parts(p, i + 1);
    } else {
        assert(p.take(i + 1) =~= p);
    }
}

impl Encode for WitcherPacket {
    open spec fn encoded(v: Seq<PacketValue>) -> Result<Seq<u8>, EncodeError> {
        match payload_wire(v) {
            Err(e) => Err(e),
            Ok(payload) => if FRAME_SIZE + payload.len() > MAX_PACKET_SIZE {
                Err(EncodeError::PacketTooLarge)
            } else {
                Ok(
                    head_bytes() + be16((FRAME_SIZE + payload.len()) as u16) + payload
                        + tail_bytes(),
                )
            },
        }
    }

    fn encode_into(&self, stream: &mut ByteStream) -> (r: Result<(), EncodeError>) {
        let mut body = ByteStream::new();
        let mut i: usize = 0;
        while i < self.payload.len()
            invariant
                i <= self.payload.len(),
                payload_wire(self@.take(i as int)) == Ok::<Seq<u8>, EncodeError>(body@),
            decreases self.payload.len() - i,
        {
            assert(self@.take(i + 1).drop_last() =~= self@.take(i as int));
            match self.payload[i].encode_into(&mut body) {
                Ok(()) => {},
                Err(e) => {
                    proof {
                        lemma_payload_prefix_error(self@, i + 1);
                    }
                    return Err(e);
                },
            }
            i += 1;
        }
        assert(self@.take(i as int) =~= self@);
        if body.len() > MAX_PACKET_SIZE - FRAME_SIZE {
            return Err(EncodeError::PacketTooLarge);
        }
        let size: u16 = (FRAME_SIZE + body.len()) as u16;
        stream.write_byte(Self::HEAD[0]);
        stream.write_byte(Self::HEAD[1]);
        stream.write_be16(size);
        stream.write_all(body.as_slice());
        stream.write_byte(Self::TAIL[0]);
        stream.write_byte(Self::TAIL[1]);
        assert(stream@ =~= old(stream)@ + (head_bytes() + be16(size) + body@ + tail_bytes()));
        Ok(())
    }
}

impl DynSizedEncode for WitcherPacket {
    open spec fn wire_size(v: Seq<PacketValue>) -> nat {
        FRAME_SIZE as nat + payload_size(v)
    }

    fn encoded_size(&self) -> (n: usize) {
        let mut size: usize = Self::min_encoded_size();
        let mut i: usize = 0;
        while i < self.payload.len()
            invariant
                i <= self.payload.len(),
                size == FRAME_SIZE + payload_size(self@.take(i as int)),
                FRAME_SIZE + payload_size(self@) <= usize::MAX,
            decreases self.payload.len() - i,
        {
            proof {
                lemma_payload_size_parts(self@, i as int);
            }
            size = size + self.payload[i].encoded_size();
            i += 1;
        }
        assert(self@.take(i as int) =~= self@);
        size
    }
}

impl Decode for WitcherPacket {
    open spec fn parse(bytes: Seq<u8>) -> Result<(Seq<PacketValue>, nat), DecodeError> {
        if bytes.len() < 2 {
            Err(eof(Field::PacketHead))
        } else if bytes.take(2) != head_bytes() {
            Err(mismatch(Field::PacketHead))
        } else if bytes.len() < 4 {
            Err(eof(Field::PacketSize))
        } else if from_be16(bytes.skip(2)) < FRAME_SIZE {
            Err(DecodeError { kind: DecodeErrorKind::SizeTooSmall, field: Field::PacketSize })
        } else {
            let budget = (from_be16(bytes.skip(2)) - FRAME_SIZE) as nat;
            match parse_payload(bytes.skip(4), budget) {
                Err(e) => Err(e),
                Ok((values, n)) => if bytes.len() < n + 6 {
                    Err(eof(Field::PacketTail))
                } else if bytes.subrange(n as int + 4, n as int + 6) != tail_bytes() {
                    Err(mismatch(Field::PacketTail))
                } else {
                    Ok((values, n + 6))
                },
            }
        }
    }

    fn decode_at(bytes: &[u8], at: usize) -> (r: Result<(Self, usize), DecodeError>) {
        let ghost input = bytes@.skip(at as int);
        if bytes.len() - at < 2 {
            return Err(DecodeError::eof(Field::PacketHead));
        }
        if bytes[at] != Self::HEAD[0] || bytes[at + 1] != Self::HEAD[1] {
            assert(input.take(2)[0] != head_bytes()[0] || input.take(2)[1] != head_bytes()[1]);
            return Err(DecodeError::mismatch(Field::PacketHead));
        }
        assert(input.take(2) =~= head_bytes());
        if bytes.len() - at < 4 {
            return Err(DecodeError::eof(Field::PacketSize));
        }
        let size = read_be16(bytes, at + 2);
        assert(bytes@.skip(at + 2) =~= input.skip(2));
        if (size as usize) < FRAME_SIZE {
            return Err(
                DecodeError { kind: DecodeErrorKind::SizeTooSmall, field: Field::PacketSize },
            );
        }
        assert(bytes@.skip(at + 4) =~= input.skip(4));
        let (payload, used) = match decode_payload(bytes, at + 4, size as usize - FRAME_SIZE) {
            Ok(found) => found,
            Err(e) => { return Err(e); },
        };
        let pos = at + 4 + used;
        if bytes.len() - pos < 2 {
            return Err(DecodeError::eof(Field::PacketTail));
        }
        let ghost tail = input.subrange(used + 4, used + 6);
        if bytes[pos] != Self::TAIL[0] || bytes[pos + 1] != Self::TAIL[1] {
            assert(tail[0] != tail_bytes()[0] || tail[1] != tail_bytes()[1]);
            return Err(DecodeError::mismatch(Field::PacketTail));
        }
        assert(tail =~= tail_bytes());
        Ok((WitcherPacket { payload }, used + 6))
    }
}

/// Reads the values that start at offset `start` of `bytes` while `budget` bytes last;
/// gives them with the number of bytes they take.
fn decode_payload(bytes: &[u8], start: usize, limit: usize) -> (r: Result<
    (Vec<WitcherPacketData>, usize),
    DecodeError,
>)
    requires
        start <= bytes.len(),
    ensures
        match parse_payload(bytes@.skip(start as int), limit as nat) {
            Ok((values, n)) => r matches Ok((payload, used)) && values_of(payload@) == values
                && used == n && start + n <= bytes.len(),
            Err(e) => r == Err::<(Vec<WitcherPacketData>, usize), DecodeError>(e),
        },
{
    let mut budget = limit;
    let mut pos: usize = start;
    let mut payload: Vec<WitcherPacketData> = Vec::new();
    proof {
        assert(values_of(payload@) =~= Seq::<PacketValue>::empty());
        lemma_then_values_none(parse_payload(bytes@.skip(pos as int), budget as nat));
    }
    while budget > 0
        invariant
            start <= pos <= bytes.len(),
            parse_payload(bytes@.skip(start as int), limit as nat) == then_values(
                values_of(payload@),
                (pos - start) as nat,
                parse_payload(bytes@.skip(pos as int), budget as nat),
            ),
        decreases budget,
    {
        let ghost remaining = bytes@.skip(pos as int);
        let ghost before = values_of(payload@);
        proof {
            lemma_value_parse_bounds(remaining);
            lemma_parse_payload_step(remaining, budget as nat);
        }
        match WitcherPacketData::decode_at(bytes, pos) {
            Err(e) => {
                return Err(e);
            },
            Ok((data, count)) => {
                let ghost value = data@;
                let ghost next = parse_payload(
                    remaining.skip(count as int),
                    budget_after(budget as nat, count as nat),
                );
                assert(remaining.skip(count as int) =~= bytes@.skip(pos + count));
                payload.push(data);
                proof {
                    assert(values_of(payload@) =~= before + seq![value]);
                    lemma_then_values_twice(
                        before,
                        (pos - start) as nat,
                        seq![value],
                        count as nat,
                        next,
                    );
                }
                pos = pos + count;
                budget = if count >= budget {
                    0
                } else {
                    budget - count
                };
            },
        }
    }
    proof {
        assert(values_of(payload@) + Seq::<PacketValue>::empty() =~= values_of(payload@));
    }
    Ok((payload, pos - start))
}

/// Whether every value of a payload is one that decoding can give back.
pub open spec fn all_unambiguous(p: Seq<PacketValue>) -> bool {
    forall|i: int| 0 <= i < p.len() ==> (#[trigger] p[i]).unambiguous()
}

/// The wire form of a payload starts with the wire form of its first value.
pub proof fn lemma_payload_wire_front(v: PacketValue, q: Seq<PacketValue>)
    requires
        payload_wire(seq![v] + q) is Ok,
    ensures
        WitcherPacketData::encoded(v) is Ok,
        payload_wire(q) is Ok,
        payload_wire(seq![v] + q)->Ok_0 == WitcherPacketData::encoded(v)->Ok_0 + payload_wire(
            q,
        )->Ok_0,
        payload_size(seq![v] + q) == WitcherPacketData::wire_size(v) + payload_size(q),
    decreases q.len(),
{
    let p = seq![v] + q;
    if q.len() == 0 {
        assert(p.drop_last() =~= Seq::<PacketValue>::empty());
        assert(p.last() == v);
        assert(payload_wire(p.drop_last()) == Ok::<Seq<u8>, EncodeError>(Seq::empty()));
        assert(Seq::<u8>::empty() + WitcherPacketData::encoded(v)->Ok_0
            =~= WitcherPacketData::encoded(v)->Ok_0 + Seq::<u8>::empty());
        assert(payload_size(p.drop_last()) == 0);
    } else {
        assert(p.drop_last() =~= seq![v] + q.drop_last());
        assert(p.last() == q.last());
        lemma_payload_wire_front(v, q.drop_last());
        let a = WitcherPacketData::encoded(v)->Ok_0;
        let b = payload_wire(q.drop_last())->Ok_0;
        let c = WitcherPacketData::encoded(q.last())->Ok_0;
        assert((a + b) + c =~= a + (b + c));
    }
}

/// A payload of values that decoding can give back is what decoding finds in its wire
/// form, and the bytes of that wire form are as many as the payload's size says.
pub proof fn lemma_payload_round_trip(p: Seq<PacketValue>, rest: Seq<u8>)
    requires
        payload_wire(p) is Ok,
        all_unambiguous(p),
    ensures
        parse_payload(payload_wire(p)->Ok_0 + rest, payload_wire(p)->Ok_0.len()) == Ok::<
            (Seq<PacketValue>, nat),
            DecodeError,
        >((p, payload_wire(p)->Ok_0.len())),
        payload_wire(p)->Ok_0.len() == payload_size(p),
    decreases p.len(),
{
    if p.len() > 0 {
        let v = p[0];
        let q = p.skip(1);
        assert(p =~= seq![v] + q);
        lemma_payload_wire_front(v, q);
        let a = WitcherPacketData::encoded(v)->Ok_0;
        let b = payload_wire(q)->Ok_0;
        let bytes = (a + b) + rest;
        assert(bytes =~= a + (b + rest));
        assert(v.unambiguous());
        assert(all_unambiguous(q)) by {
            assert forall|i: int| 0 <= i < q.len() implies (#[trigger] q[i]).unambiguous() by {
                assert(q[i] == p[i + 1]);
            }
        }
        lemma_value_round_trip(v, b + rest);
        lemma_value_parse_bounds(bytes);
        lemma_payload_round_trip(q, rest);
        lemma_parse_payload_step(bytes, (a + b).len());
        assert(bytes.skip(a.len() as int) =~= b + rest);
        assert(budget_after((a + b).len(), a.len()) == b.len());
        assert(WitcherPacketData::parse(bytes) == Ok::<(PacketValue, nat), DecodeError>(
            (v, a.len()),
        ));
        assert(parse_payload(b + rest, b.len()) == Ok::<(Seq<PacketValue>, nat), DecodeError>(
            (q, b.len()),
        ));
        assert(parse_payload(bytes, (a + b).len()) == then_values(
            seq![v],
            a.len(),
            parse_payload(b + rest, b.len()),
        ));
    } else {
        assert(p =~= Seq::<PacketValue>::empty());
        assert(payload_wire(p)->Ok_0.len() == 0);
    }
}

/// Decoding undoes encoding: a packet that has a wire form, and whose values decoding
/// can give back, is what decoding finds in that wire form, whatever follows it. The
/// size field of the wire form holds the packet's size, which is the length of the
/// wire form: six bytes of frame and the sizes of the values.
pub proof fn lemma_packet_round_trip(p: Seq<PacketValue>, rest: Seq<u8>)
    requires
        WitcherPacket::encoded(p) is Ok,
        all_unambiguous(p),
    ensures
        WitcherPacket::parse(WitcherPacket::encoded(p)->Ok_0 + rest) == Ok::<
            (Seq<PacketValue>, nat),
            DecodeError,
        >((p, WitcherPacket::encoded(p)->Ok_0.len())),
        WitcherPacket::encoded(p)->Ok_0.len() == WitcherPacket::wire_size(p),
        WitcherPacket::wire_size(p) == FRAME_SIZE + payload_size(p),
        from_be16(WitcherPacket::encoded(p)->Ok_0.skip(2)) == WitcherPacket::wire_size(p),
{
    let payload = payload_wire(p)->Ok_0;
    let size = (FRAME_SIZE + payload.len()) as u16;
    let wire = WitcherPacket::encoded(p)->Ok_0;
    let bytes = wire + rest;
    lemma_payload_round_trip(p, tail_bytes() + rest);
    lemma_be16(size, payload + tail_bytes() + rest);
    lemma_be16(size, payload + tail_bytes());
    assert(wire =~= head_bytes() + (be16(size) + (payload + tail_bytes())));
    assert(bytes =~= head_bytes() + (be16(size) + (payload + (tail_bytes() + rest))));
    assert(bytes.take(2) =~= head_bytes());
    assert(bytes.skip(2) =~= be16(size) + (payload + tail_bytes() + rest));
    assert(wire.skip(2) =~= be16(size) + (payload + tail_bytes()));
    assert(bytes.skip(4) =~= payload + (tail_bytes() + rest));
    let n = payload.len();
    assert(bytes.subrange(n as int + 4, n as int + 6) =~= tail_bytes());
}

/// The packet without a payload has the six bytes of the frame as its wire form, and
/// decodes from them.
pub proof fn lemma_empty_packet()
    ensures
        WitcherPacket::encoded(Seq::empty()) == Ok::<Seq<u8>, EncodeError>(
            seq![0xDEu8, 0xADu8, 0x00u8, 0x06u8, 0xBEu8, 0xEFu8],
        ),
        WitcherPacket::parse(seq![0xDEu8, 0xADu8, 0x00u8, 0x06u8, 0xBEu8, 0xEFu8]) == Ok::<
            (Seq<PacketValue>, nat),
            DecodeError,
        >((Seq::empty(), 6)),
{
    let p = Seq::<PacketValue>::empty();
    let wire = seq![0xDEu8, 0xADu8, 0x00u8, 0x06u8, 0xBEu8, 0xEFu8];
    assert(payload_wire(p) == Ok::<Seq<u8>, EncodeError>(Seq::empty()));
    assert(head_bytes() + be16(6u16) + Seq::<u8>::empty() + tail_bytes() =~= wire);
    assert(all_unambiguous(p));
    lemma_packet_round_trip(p, Seq::empty());
    assert(wire + Seq::<u8>::empty() =~= wire);
}

impl WitcherPacketData {
    /// The size of the value on the wire.
    pub fn size(&self) -> (n: usize)
        requires
            Self::wire_size(self@) <= usize::MAX,
        ensures
            n == Self::wire_size(self@),
    {
        self.encoded_size()
    }

    /// The wire form of the value.
    pub fn to_bytes(&self) -> (bytes: Result<Vec<u8>, EncodeError>)
        ensures
            match Self::encoded(self@) {
                Ok(wire) => bytes matches Ok(b) && b@ == wire,
                Err(e) => bytes == Err::<Vec<u8>, EncodeError>(e),
            },
    {
        let mut stream = ByteStream::new();
        match self.encode_into(&mut stream) {
            Ok(()) => {
                assert(Seq::<u8>::empty() + Self::encoded(self@)->Ok_0 =~= Self::encoded(
                    self@,
                )->Ok_0);
                Ok(stream.take_all())
            },
            Err(e) => Err(e),
        }
    }

    /// The values that a payload holds: those read one after the other until the bytes
    /// of the payload are used up.
    pub fn from_bytes(payload: &[u8]) -> (r: Result<Vec<WitcherPacketData>, DecodeError>)
        ensures
            match parse_payload(payload@, payload@.len()) {
                Ok((values, _)) => r matches Ok(found) && values_of(found@) == values,
                Err(e) => r == Err::<Vec<WitcherPacketData>, DecodeError>(e),
            },
    {
        assert(payload@.skip(0) =~= payload@);
        match decode_payload(payload, 0, payload.len()) {
            Ok((found, _)) => Ok(found),
            Err(e) => Err(e),
        }
    }
}

} // verus!
