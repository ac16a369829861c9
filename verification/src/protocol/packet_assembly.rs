use vstd::prelude::*;
use crate::protocol::encoding::{StringUtf16, StringUtf8};
use crate::protocol::packet::{all_unambiguous, values_of, WitcherPacket};
use crate::protocol::packet_data::{PacketValue, WitcherPacketData};

verus! {

/// Builds a payload value by value.
#[derive(Debug)]
pub struct WitcherPacketAssembler {
    payload: Vec<WitcherPacketData>,
}

impl View for WitcherPacketAssembler {
    type V = Seq<PacketValue>;

    closed spec fn view(&self) -> Seq<PacketValue> {
        values_of(self.payload@)
    }
}

impl WitcherPacketAssembler {
    #[inline]
    pub fn new() -> (assembler: Self)
        ensures
            assembler@ == Seq::<PacketValue>::empty(),
    {
        let assembler = Self { payload: Vec::new() };
        assert(assembler@ =~= Seq::<PacketValue>::empty());
        assembler
    }

    #[inline]
    pub fn int8(self, data: i8) -> (assembler: Self)
        ensures
            assembler@ == self@.push(PacketValue::Int8(data)),
    {
        self.push(WitcherPacketData::new_int8(data))
    }

    #[inline]
    pub fn int16(self, data: i16) -> (assembler: Self)
        ensures
            assembler@ == self@.push(PacketValue::Int16(data)),
    {
        self.push(WitcherPacketData::new_int16(data))
    }

    #[inline]
    pub fn int32(self, data: i32) -> (assembler: Self)
        ensures
            assembler@ == self@.push(PacketValue::Int32(data)),
    {
        self.push(WitcherPacketData::new_int32(data))
    }

    #[inline]
    pub fn uint32(self, data: u32) -> (assembler: Self)
        ensures
            assembler@ == self@.push(PacketValue::UInt32(data)),
    {
        self.push(WitcherPacketData::new_uint32(data))
    }

    #[inline]
    pub fn int64(self, data: i64) -> (assembler: Self)
        ensures
            assembler@ == self@.push(PacketValue::Int64(data)),
    {
        self.push(WitcherPacketData::new_int64(data))
    }

    #[inline]
    pub fn string_utf8(self, data: &str) -> (assembler: Self)
        ensures
            assembler@ == self@.push(PacketValue::StringUTF8(data@)),
    {
        self.push(WitcherPacketData::new_string_utf8(data))
    }

    #[inline]
    pub fn string_utf16(self, data: &str) -> (assembler: Self)
        ensures
            assembler@ == self@.push(PacketValue::StringUTF16(data@)),
    {
        self.push(WitcherPacketData::new_string_utf16(data))
    }

    #[inline]
    pub fn finish(self) -> (packet: WitcherPacket)
        ensures
            packet@ == self@,
    {
        WitcherPacket::from_payload(self.payload)
    }

    #[inline]
    pub fn finish_as_payload(self) -> (payload: Vec<WitcherPacketData>)
        ensures
            values_of(payload@) == self@,
    {
        self.payload
    }

    /// Adds one value at the end of the payload.
    #[inline]
    pub fn push(self, data: WitcherPacketData) -> (assembler: Self)
        ensures
            assembler@ == self@.push(data@),
    {
        let mut assembler = self;
        assembler.payload.push(data);
        assert(assembler@ =~= self@.push(data@));
        assembler
    }
}

/// What went wrong while taking a payload apart.
#[derive(Clone, Copy, Debug, PartialEq, Eq)]
pub enum DisassembleErrorKind {
    /// The payload ended before the field.
    NoMoreData,
    /// The next value was not of the field's type.
    TypeMismatch,
    /// The next value was not the fixed value expected there.
    UnexpectedValue,
    /// A discriminator was none of the documented ones.
    UnknownVariant,
}

/// A failure to take a payload apart, with the name of the field that failed; the name
/// is empty where the field has none.
#[derive(Clone, Copy, Debug, PartialEq, Eq)]
pub struct DisassembleError {
    pub kind: DisassembleErrorKind,
    pub context: &'static str,
}

/// The error of the given kind at a field without a name.
pub open spec fn failure(kind: DisassembleErrorKind) -> DisassembleError {
    DisassembleError { kind, context: "" }
}

/// A result whose error, if it is one, names the field `context`.
pub open spec fn in_context<T>(
    outcome: (Result<T, DisassembleError>, nat),
    context: &'static str,
) -> (Result<T, DisassembleError>, nat) {
    match outcome.0 {
        Ok(v) => outcome,
        Err(e) => (Err(DisassembleError { kind: e.kind, context }), outcome.1),
    }
}

impl DisassembleError {
    /// The same failure, at the field `context`.
    pub fn at(self, context: &'static str) -> (e: Self)
        ensures
            e == (DisassembleError { kind: self.kind, context }),
    {
        DisassembleError { kind: self.kind, context }
    }
}

/// The first value of a payload, if it has one, and the number of values taken: one
/// unless the payload is empty.
pub open spec fn take_any(s: Seq<PacketValue>) -> (Result<PacketValue, DisassembleError>, nat) {
    if s.len() == 0 {
        (Err(failure(DisassembleErrorKind::NoMoreData)), 0)
    } else {
        (Ok(s[0]), 1)
    }
}

/// The first value of a payload read as one of a given type: `pick` says what it holds
/// if it is of that type. A value of another type is taken all the same.
pub open spec fn take_typed<T>(s: Seq<PacketValue>, pick: spec_fn(PacketValue) -> Option<T>) -> (
    Result<T, DisassembleError>,
    nat,
) {
    if s.len() == 0 {
        (Err(failure(DisassembleErrorKind::NoMoreData)), 0)
    } else {
        match pick(s[0]) {
            Some(v) => (Ok(v), 1),
            None => (Err(failure(DisassembleErrorKind::TypeMismatch)), 1),
        }
    }
}

/// A value read as one of a given type that must also be `expected`.
pub open spec fn take_fixed<T>(
    s: Seq<PacketValue>,
    pick: spec_fn(PacketValue) -> Option<T>,
    expected: T,
) -> (Result<T, DisassembleError>, nat) {
    match take_typed(s, pick).0 {
        Ok(v) => if v == expected {
            (Ok(v), 1)
        } else {
            (Err(failure(DisassembleErrorKind::UnexpectedValue)), 1)
        },
        Err(e) => take_typed(s, pick),
    }
}

/// What a value holds if it is a signed 8-bit integer.
pub open spec fn as_int8(v: PacketValue) -> Option<i8> {
    match v {
        PacketValue::Int8(d) => Some(d),
        _ => None,
    }
}

/// What a value holds if it is a signed 16-bit integer.
pub open spec fn as_int16(v: PacketValue) -> Option<i16> {
    match v {
        PacketValue::Int16(d) => Some(d),
        _ => None,
    }
}

/// What a value holds if it is a signed 32-bit integer.
pub open spec fn as_int32(v: PacketValue) -> Option<i32> {
    match v {
        PacketValue::Int32(d) => Some(d),
        _ => None,
    }
}

/// What a value holds if it is an unsigned 32-bit integer.
pub open spec fn as_uint32(v: PacketValue) -> Option<u32> {
    match v {
        PacketValue::UInt32(d) => Some(d),
        _ => None,
    }
}

/// What a value holds if it is a signed 64-bit integer.
pub open spec fn as_int64(v: PacketValue) -> Option<i64> {
    match v {
        PacketValue::Int64(d) => Some(d),
        _ => None,
    }
}

/// What a value holds if it is a UTF-8 text.
pub open spec fn as_utf8(v: PacketValue) -> Option<Seq<char>> {
    match v {
        PacketValue::StringUTF8(d) => Some(d),
        _ => None,
    }
}

/// What a value holds if it is a UTF-16 text.
pub open spec fn as_utf16(v: PacketValue) -> Option<Seq<char>> {
    match v {
        PacketValue::StringUTF16(d) => Some(d),
        _ => None,
    }
}

/// The first value of a payload read as a signed 8-bit integer.
pub open spec fn take_int8(s: Seq<PacketValue>) -> (Result<i8, DisassembleError>, nat) {
    take_typed(s, |v: PacketValue| as_int8(v))
}

/// The first value of a payload read as a signed 16-bit integer.
pub open spec fn take_int16(s: Seq<PacketValue>) -> (Result<i16, DisassembleError>, nat) {
    take_typed(s, |v: PacketValue| as_int16(v))
}

/// The first value of a payload read as a signed 32-bit integer.
pub open spec fn take_int32(s: Seq<PacketValue>) -> (Result<i32, DisassembleError>, nat) {
    take_typed(s, |v: PacketValue| as_int32(v))
}

/// The first value of a payload read as an unsigned 32-bit integer.
pub open spec fn take_uint32(s: Seq<PacketValue>) -> (Result<u32, DisassembleError>, nat) {
    take_typed(s, |v: PacketValue| as_uint32(v))
}

/// The first value of a payload read as a signed 64-bit integer.
pub open spec fn take_int64(s: Seq<PacketValue>) -> (Result<i64, DisassembleError>, nat) {
    take_typed(s, |v: PacketValue| as_int64(v))
}

/// The first value of a payload read as a UTF-8 text.
pub open spec fn take_utf8(s: Seq<PacketValue>) -> (Result<Seq<char>, DisassembleError>, nat) {
    take_typed(s, |v: PacketValue| as_utf8(v))
}

/// The first value of a payload read as a UTF-16 text.
pub open spec fn take_utf16(s: Seq<PacketValue>) -> (Result<Seq<char>, DisassembleError>, nat) {
    take_typed(s, |v: PacketValue| as_utf16(v))
}

/// The first value of a payload read as a signed 8-bit integer that must be `expected`.
pub open spec fn take_fixed_int8(s: Seq<PacketValue>, expected: i8) -> (
    Result<i8, DisassembleError>,
    nat,
) {
    take_fixed(s, |v: PacketValue| as_int8(v), expected)
}

/// The first value of a payload read as a signed 16-bit integer that must be `expected`.
pub open spec fn take_fixed_int16(s: Seq<PacketValue>, expected: i16) -> (
    Result<i16, DisassembleError>,
    nat,
) {
    take_fixed(s, |v: PacketValue| as_int16(v), expected)
}

/// The first value of a payload read as a signed 32-bit integer that must be `expected`.
pub open spec fn take_fixed_int32(s: Seq<PacketValue>, expected: i32) -> (
    Result<i32, DisassembleError>,
    nat,
) {
    take_fixed(s, |v: PacketValue| as_int32(v), expected)
}

/// The first value of a payload read as an unsigned 32-bit integer that must be `expected`.
pub open spec fn take_fixed_uint32(s: Seq<PacketValue>, expected: u32) -> (
    Result<u32, DisassembleError>,
    nat,
) {
    take_fixed(s, |v: PacketValue| as_uint32(v), expected)
}

/// The first value of a payload read as a signed 64-bit integer that must be `expected`.
pub open spec fn take_fixed_int64(s: Seq<PacketValue>, expected: i64) -> (
    Result<i64, DisassembleError>,
    nat,
) {
    take_fixed(s, |v: PacketValue| as_int64(v), expected)
}

/// The first value of a payload read as a UTF-8 text that must be `expected`.
pub open spec fn take_fixed_utf8(s: Seq<PacketValue>, expected: Seq<char>) -> (
    Result<Seq<char>, DisassembleError>,
    nat,
) {
    take_fixed(s, |v: PacketValue| as_utf8(v), expected)
}

/// The first value of a payload read as a UTF-16 text that must be `expected`.
pub open spec fn take_fixed_utf16(s: Seq<PacketValue>, expected: Seq<char>) -> (
    Result<Seq<char>, DisassembleError>,
    nat,
) {
    take_fixed(s, |v: PacketValue| as_utf16(v), expected)
}

/// Whether what an operation gave and left behind is what `outcome` says: the result
/// it names, and the payload without the values it counts.
pub open spec fn took<T, V>(
    outcome: (Result<V, DisassembleError>, nat),
    before: Seq<PacketValue>,
    after: Seq<PacketValue>,
    given: Result<T, DisassembleError>,
    view: spec_fn(T) -> V,
) -> bool {
    &&& outcome.1 <= before.len()
    &&& after == before.skip(outcome.1 as int)
    &&& match outcome.0 {
        Ok(v) => given matches Ok(x) && view(x) == v,
        Err(e) => given == Err::<T, DisassembleError>(e),
    }
}

/// The outcome of reading a list: `done`, read from `used` values, followed by what
/// `rest` reads.
pub open spec fn prepend<T>(
    done: Seq<T>,
    used: nat,
    rest: (Result<Seq<T>, DisassembleError>, nat),
) -> (Result<Seq<T>, DisassembleError>, nat) {
    match rest.0 {
        Err(e) => (Err(e), used + rest.1),
        Ok(more) => (Ok(done + more), used + rest.1),
    }
}

/// Items read one run after the other are read together.
pub proof fn lemma_prepend_twice<T>(
    a: Seq<T>,
    x: nat,
    b: Seq<T>,
    y: nat,
    rest: (Result<Seq<T>, DisassembleError>, nat),
)
    ensures
        prepend(a, x, prepend(b, y, rest)) == prepend(a + b, x + y, rest),
{
    if rest.0 is Ok {
        assert(a + (b + rest.0->Ok_0) =~= (a + b) + rest.0->Ok_0);
    }
}

/// Nothing, read from no values, followed by an outcome is that outcome.
pub proof fn lemma_prepend_none<T>(rest: (Result<Seq<T>, DisassembleError>, nat))
    ensures
        prepend(Seq::empty(), 0, rest) == rest,
{
    if rest.0 is Ok {
        assert(Seq::<T>::empty() + rest.0->Ok_0 =~= rest.0->Ok_0);
    }
}

/// The values that stand for a list of items: those of each item, in order.
pub open spec fn concat_map<T>(items: Seq<T>, values: spec_fn(T) -> Seq<PacketValue>) -> Seq<
    PacketValue,
>
    decreases items.len(),
{
    if items.len() == 0 {
        Seq::empty()
    } else {
        values(items[0]) + concat_map(items.skip(1), values)
    }
}

/// One more item at the end of a list adds its values at the end.
pub proof fn lemma_concat_map_push<T>(
    items: Seq<T>,
    item: T,
    values: spec_fn(T) -> Seq<PacketValue>,
)
    ensures
        concat_map(items.push(item), values) == concat_map(items, values) + values(item),
    decreases items.len(),
{
    let all = items.push(item);
    if items.len() == 0 {
        assert(all.skip(1) =~= Seq::<T>::empty());
        assert(all[0] == item);
        assert(concat_map(all.skip(1), values) =~= Seq::<PacketValue>::empty());
        assert(concat_map(items, values) =~= Seq::<PacketValue>::empty());
        assert(values(item) + Seq::<PacketValue>::empty() =~= Seq::<PacketValue>::empty()
            + values(item));
    } else {
        assert(all[0] == items[0]);
        assert(all.skip(1) =~= items.skip(1).push(item));
        lemma_concat_map_push(items.skip(1), item, values);
        assert(values(items[0]) + (concat_map(items.skip(1), values) + values(item)) =~= (values(
            items[0],
        ) + concat_map(items.skip(1), values)) + values(item));
    }
}

/// Skipping values one run after the other skips them together.
pub proof fn lemma_skip_twice<T>(s: Seq<T>, a: int, b: int)
    requires
        0 <= a,
        0 <= b,
        a + b <= s.len(),
    ensures
        s.skip(a).skip(b) == s.skip(a + b),
{
    assert(s.skip(a).skip(b) =~= s.skip(a + b));
}

/// Where a reading starts behind the first `at` values of `s` and takes none or one
/// of the values there, what it leaves is `s` without its first `at` values, or
/// without one more.
pub proof fn lemma_took_at<T>(s: Seq<T>, at: int, before: Seq<T>, left: Seq<T>)
    requires
        0 <= at <= s.len(),
        before =~= s.skip(at),
        left == before.skip(0) || (at < s.len() && left == before.skip(1)),
    ensures
        left.len() == s.len() - at ==> left == s.skip(at),
        left.len() != s.len() - at ==> left == s.skip(at + 1),
{
    assert(s.skip(at).skip(0) =~= s.skip(at));
    if at < s.len() {
        assert(s.skip(at).skip(1) =~= s.skip(at + 1));
    }
}

/// Whether two texts are the same sequence of characters.
pub fn same_text(a: &str, b: &str) -> (same: bool)
    ensures
        same == (a@ == b@),
{
    let x = a.as_bytes();
    let y = b.as_bytes();
    proof {
        vstd::utf8::encode_utf8_decode_utf8(a@);
        vstd::utf8::encode_utf8_decode_utf8(b@);
    }
    if x.len() != y.len() {
        return false;
    }
    let mut i: usize = 0;
    while i < x.len()
        invariant
            i <= x.len(),
            x.len() == y.len(),
            x@ == vstd::utf8::encode_utf8(a@),
            y@ == vstd::utf8::encode_utf8(b@),
            forall|j: int| 0 <= j < i ==> x@[j] == y@[j],
        decreases x.len() - i,
    {
        if x[i] != y[i] {
            return false;
        }
        i += 1;
    }
    assert(x@ =~= y@);
    true
}

/// Takes a payload apart value by value, from its first value on.
#[derive(Debug)]
pub struct WitcherPacketDisassembler {
    payload_rev: Vec<WitcherPacketData>,
}

impl View for WitcherPacketDisassembler {
    type V = Seq<PacketValue>;

    closed spec fn view(&self) -> Seq<PacketValue> {
        values_of(self.payload_rev@).reverse()
    }
}

impl WitcherPacketDisassembler {
    #[inline]
    pub fn new(packet: WitcherPacket) -> (dasm: Self)
        ensures
            dasm@ == packet@,
    {
        // reversed, so that the next value is the one that `pop` gives
        let mut payload = packet.into_payload();
        let ghost values = values_of(payload@);
        let mut payload_rev: Vec<WitcherPacketData> = Vec::new();
        while payload.len() > 0
            invariant
                payload@.len() <= values.len(),
                values_of(payload@) == values.take(payload@.len() as int),
                values_of(payload_rev@).reverse() == values.skip(payload@.len() as int),
            decreases payload.len(),
        {
            let ghost before = payload@;
            let ghost done = values_of(payload_rev@);
            let last = payload.pop().unwrap();
            assert(last@ == values[before.len() - 1]) by {
                assert(values_of(before)[before.len() - 1] == values.take(before.len() as int)[
                    before.len() - 1]);
            }
            payload_rev.push(last);
            assert(values_of(payload@) =~= values.take(payload@.len() as int)) by {
                assert forall|j: int| 0 <= j < payload@.len() implies values_of(payload@)[j]
                    == values[j] by {
                    assert(values_of(before)[j] == values.take(before.len() as int)[j]);
                }
            }
            assert(values_of(payload_rev@) =~= done.push(last@));
            assert(done.push(last@).reverse() =~= seq![last@] + done.reverse());
            assert(values_of(payload_rev@).reverse() =~= values.skip(payload@.len() as int));
        }
        assert(values.skip(0) =~= values);
        Self { payload_rev }
    }

    #[inline]
    pub fn int8(&mut self) -> (r: Result<i8, DisassembleError>)
        ensures
            took(take_int8(old(self)@), old(self)@, final(self)@, r, |x: i8| x),
    {
        match self.pop() {
            Ok(WitcherPacketData::Int8(t)) => Ok(t.into_inner()),
            Ok(_) => Err(
                DisassembleError { kind: DisassembleErrorKind::TypeMismatch, context: "" },
            ),
            Err(e) => Err(e),
        }
    }

    #[inline]
    pub fn fixed_int8(&mut self, expected: i8) -> (r: Result<i8, DisassembleError>)
        ensures
            took(take_fixed_int8(old(self)@, expected), old(self)@, final(self)@, r, |x: i8| x),
    {
        match self.int8() {
            Ok(data) => if data != expected {
                Err(DisassembleError { kind: DisassembleErrorKind::UnexpectedValue, context: "" })
            } else {
                Ok(data)
            },
            Err(e) => Err(e),
        }
    }

    #[inline]
    pub fn int16(&mut self) -> (r: Result<i16, DisassembleError>)
        ensures
            took(take_int16(old(self)@), old(self)@, final(self)@, r, |x: i16| x),
    {
        match self.pop() {
            Ok(WitcherPacketData::Int16(t)) => Ok(t.into_inner()),
            Ok(_) => Err(
                DisassembleError { kind: DisassembleErrorKind::TypeMismatch, context: "" },
            ),
            Err(e) => Err(e),
        }
    }

    #[inline]
    pub fn fixed_int16(&mut self, expected: i16) -> (r: Result<i16, DisassembleError>)
        ensures
            took(
                take_fixed_int16(old(self)@, expected),
                old(self)@,
                final(self)@,
                r,
                |x: i16| x,
            ),
    {
        match self.int16() {
            Ok(data) => if data != expected {
                Err(DisassembleError { kind: DisassembleErrorKind::UnexpectedValue, context: "" })
            } else {
                Ok(data)
            },
            Err(e) => Err(e),
        }
    }

    #[inline]
    pub fn int32(&mut self) -> (r: Result<i32, DisassembleError>)
        ensures
            took(take_int32(old(self)@), old(self)@, final(self)@, r, |x: i32| x),
    {
        match self.pop() {
            Ok(WitcherPacketData::Int32(t)) => Ok(t.into_inner()),
            Ok(_) => Err(
                DisassembleError { kind: DisassembleErrorKind::TypeMismatch, context: "" },
            ),
            Err(e) => Err(e),
        }
    }

    #[inline]
    pub fn fixed_int32(&mut self, expected: i32) -> (r: Result<i32, DisassembleError>)
        ensures
            took(
                take_fixed_int32(old(self)@, expected),
                old(self)@,
                final(self)@,
                r,
                |x: i32| x,
            ),
    {
        match self.int32() {
            Ok(data) => if data != expected {
                Err(DisassembleError { kind: DisassembleErrorKind::UnexpectedValue, context: "" })
            } else {
                Ok(data)
            },
            Err(e) => Err(e),
        }
    }

    #[inline]
    pub fn uint32(&mut self) -> (r: Result<u32, DisassembleError>)
        ensures
            took(take_uint32(old(self)@), old(self)@, final(self)@, r, |x: u32| x),
    {
        match self.pop() {
            Ok(WitcherPacketData::UInt32(t)) => Ok(t.into_inner()),
            Ok(_) => Err(
                DisassembleError { kind: DisassembleErrorKind::TypeMismatch, context: "" },
            ),
            Err(e) => Err(e),
        }
    }

    #[inline]
    pub fn fixed_uint32(&mut self, expected: u32) -> (r: Result<u32, DisassembleError>)
        ensures
            took(
                take_fixed_uint32(old(self)@, expected),
                old(self)@,
                final(self)@,
                r,
                |x: u32| x,
            ),
    {
        match self.uint32() {
            Ok(data) => if data != expected {
                Err(DisassembleError { kind: DisassembleErrorKind::UnexpectedValue, context: "" })
            } else {
                Ok(data)
            },
            Err(e) => Err(e),
        }
    }

    #[inline]
    pub fn int64(&mut self) -> (r: Result<i64, DisassembleError>)
        ensures
            took(take_int64(old(self)@), old(self)@, final(self)@, r, |x: i64| x),
    {
        match self.pop() {
            Ok(WitcherPacketData::Int64(t)) => Ok(t.into_inner()),
            Ok(_) => Err(
                DisassembleError { kind: DisassembleErrorKind::TypeMismatch, context: "" },
            ),
            Err(e) => Err(e),
        }
    }

    #[inline]
    pub fn fixed_int64(&mut self, expected: i64) -> (r: Result<i64, DisassembleError>)
        ensures
            took(
                take_fixed_int64(old(self)@, expected),
                old(self)@,
                final(self)@,
                r,
                |x: i64| x,
            ),
    {
        match self.int64() {
            Ok(data) => if data != expected {
                Err(DisassembleError { kind: DisassembleErrorKind::UnexpectedValue, context: "" })
            } else {
                Ok(data)
            },
            Err(e) => Err(e),
        }
    }

    #[inline]
    pub fn string_utf8(&mut self) -> (r: Result<StringUtf8, DisassembleError>)
        ensures
            took(take_utf8(old(self)@), old(self)@, final(self)@, r, |x: StringUtf8| x@),
    {
        match self.pop() {
            Ok(WitcherPacketData::StringUTF8(t)) => Ok(t.into_inner()),
            Ok(_) => Err(
                DisassembleError { kind: DisassembleErrorKind::TypeMismatch, context: "" },
            ),
            Err(e) => Err(e),
        }
    }

    #[inline]
    pub fn fixed_string_utf8(&mut self, expected: &str) -> (r: Result<
        StringUtf8,
        DisassembleError,
    >)
        ensures
            took(
                take_fixed_utf8(old(self)@, expected@),
                old(self)@,
                final(self)@,
                r,
                |x: StringUtf8| x@,
            ),
    {
        match self.string_utf8() {
            Ok(data) => if !same_text(data.as_str(), expected) {
                Err(DisassembleError { kind: DisassembleErrorKind::UnexpectedValue, context: "" })
            } else {
                Ok(data)
            },
            Err(e) => Err(e),
        }
    }

    #[inline]
    pub fn string_utf16(&mut self) -> (r: Result<StringUtf16, DisassembleError>)
        ensures
            took(take_utf16(old(self)@), old(self)@, final(self)@, r, |x: StringUtf16| x@),
    {
        match self.pop() {
            Ok(WitcherPacketData::StringUTF16(t)) => Ok(t.into_inner()),
            Ok(_) => Err(
                DisassembleError { kind: DisassembleErrorKind::TypeMismatch, context: "" },
            ),
            Err(e) => Err(e),
        }
    }

    #[inline]
    pub fn fixed_string_utf16(&mut self, expected: &str) -> (r: Result<
        StringUtf16,
        DisassembleError,
    >)
        ensures
            took(
                take_fixed_utf16(old(self)@, expected@),
                old(self)@,
                final(self)@,
                r,
                |x: StringUtf16| x@,
            ),
    {
        match self.string_utf16() {
            Ok(data) => if !same_text(data.as_str(), expected) {
                Err(DisassembleError { kind: DisassembleErrorKind::UnexpectedValue, context: "" })
            } else {
                Ok(data)
            },
            Err(e) => Err(e),
        }
    }

    #[inline]
    pub fn any(&mut self) -> (r: Result<WitcherPacketData, DisassembleError>)
        ensures
            took(take_any(old(self)@), old(self)@, final(self)@, r, |x: WitcherPacketData| x@),
    {
        self.pop()
    }

    /// Takes the next value off the payload.
    #[inline]
    pub fn pop(&mut self) -> (r: Result<WitcherPacketData, DisassembleError>)
        ensures
            took(take_any(old(self)@), old(self)@, final(self)@, r, |x: WitcherPacketData| x@),
    {
        let ghost before = values_of(self.payload_rev@);
        match self.payload_rev.pop() {
            Some(data) => {
                assert(before.reverse()[0] == data@);
                assert(values_of(self.payload_rev@) =~= before.drop_last());
                assert(before.drop_last().reverse() =~= before.reverse().skip(1));
                Ok(data)
            },
            None => {
                assert(old(self)@.skip(0) =~= old(self)@);
                Err(DisassembleError { kind: DisassembleErrorKind::NoMoreData, context: "" })
            },
        }
    }

    /// The number of values not yet taken.
    pub fn remaining(&self) -> (n: usize)
        ensures
            n == self@.len(),
    {
        self.payload_rev.len()
    }
}

/// A value that knows how to add its fields to a payload.
pub trait AssemblePayload: Sized + View {
    /// The values that stand for `v` in a payload.
    spec fn payload(v: Self::V) -> Seq<PacketValue>;

    fn assemble_payload(self, assembler: WitcherPacketAssembler) -> (r: WitcherPacketAssembler)
        ensures
            r@ == assembler@ + Self::payload(self@),
    ;
}

/// A value that knows how to read its fields from a payload.
pub trait DisassemblePayload: Sized + View {
    /// What reading a value from the start of a payload gives, and the number of values
    /// of the payload that the reading takes, also where it fails.
    spec fn parsed(s: Seq<PacketValue>) -> (Result<Self::V, DisassembleError>, nat);

    fn disassemble_payload(dasm: &mut WitcherPacketDisassembler) -> (r: Result<
        Self,
        DisassembleError,
    >)
        ensures
            took(Self::parsed(old(dasm)@), old(dasm)@, final(dasm)@, r, |x: Self| x@),
    ;
}

/// A value whose reading from a payload undoes its writing.
pub trait PayloadRoundTrip: AssemblePayload + DisassemblePayload {
    /// Whether a value is one that a payload can carry without loss.
    spec fn legal(v: Self::V) -> bool;

    /// Reading finds a legal value at the start of the payload that was written for it,
    /// whatever follows, and takes exactly the values written.
    proof fn lemma_payload_round_trip(v: Self::V, rest: Seq<PacketValue>)
        requires
            Self::legal(v),
        ensures
            Self::parsed(Self::payload(v) + rest) == (
                Ok::<Self::V, DisassembleError>(v),
                Self::payload(v).len(),
            ),
    ;

    /// The values written for a value are all of known kinds, so that they cross the
    /// wire as they are.
    proof fn lemma_payload_known(v: Self::V)
        ensures
            all_unambiguous(Self::payload(v)),
    ;
}

/// The values that stand for a list of items are of known kinds where those of every
/// item are.
pub proof fn lemma_concat_map_known<T>(items: Seq<T>, values: spec_fn(T) -> Seq<PacketValue>)
    requires
        forall|item: T| all_unambiguous(#[trigger] values(item)),
    ensures
        all_unambiguous(concat_map(items, values)),
    decreases items.len(),
{
    if items.len() > 0 {
        lemma_concat_map_known(items.skip(1), values);
        let first = values(items[0]);
        let rest = concat_map(items.skip(1), values);
        assert(all_unambiguous(first));
        assert forall|i: int| 0 <= i < (first + rest).len() implies (#[trigger] (first + rest)[i]).unambiguous() by {
            if i < first.len() {
                assert((first + rest)[i] == first[i]);
            } else {
                assert((first + rest)[i] == rest[i - first.len()]);
            }
        }
    }
}

/// Values of known kinds behind values of known kinds are values of known kinds.
pub proof fn lemma_known_append(a: Seq<PacketValue>, b: Seq<PacketValue>)
    requires
        all_unambiguous(a),
        all_unambiguous(b),
    ensures
        all_unambiguous(a + b),
{
    assert forall|i: int| 0 <= i < (a + b).len() implies (#[trigger] (a + b)[i]).unambiguous() by {
        if i < a.len() {
            assert((a + b)[i] == a[i]);
        } else {
            assert((a + b)[i] == b[i - a.len()]);
        }
    }
}

impl PayloadRoundTrip for () {
    open spec fn legal(v: ()) -> bool {
        true
    }

    proof fn lemma_payload_round_trip(v: (), rest: Seq<PacketValue>) {
    }

    proof fn lemma_payload_known(v: ()) {
    }
}

impl AssemblePayload for () {
    open spec fn payload(v: ()) -> Seq<PacketValue> {
        Seq::empty()
    }

    fn assemble_payload(self, assembler: WitcherPacketAssembler) -> (r: WitcherPacketAssembler) {
        assert(assembler@ + Seq::<PacketValue>::empty() =~= assembler@);
        assembler
    }
}

impl DisassemblePayload for () {
    open spec fn parsed(s: Seq<PacketValue>) -> (Result<(), DisassembleError>, nat) {
        (Ok(()), 0)
    }

    fn disassemble_payload(dasm: &mut WitcherPacketDisassembler) -> (r: Result<
        Self,
        DisassembleError,
    >) {
        assert(dasm@.skip(0) =~= dasm@);
        Ok(())
    }
}

} // verus!
