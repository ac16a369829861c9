//! The message catalogue: what each known message looks like in a payload, and how an
//! inbound packet is told apart by the values it starts with.

pub mod common;
pub mod lines;
pub mod notifications;
pub mod requests;

pub use notifications::Notification;
pub use requests::{Request, Response};

use vstd::prelude::*;
use crate::protocol::encoding::{Decode, Encode};
use crate::protocol::packet::{clone_payload, lemma_packet_round_trip, values_of, WitcherPacket};
use crate::protocol::stream::DecodeError;
use crate::protocol::packet_assembly::{
    lemma_known_append, AssemblePayload, DisassembleError, DisassemblePayload,
    PayloadRoundTrip,
    WitcherPacketAssembler, WitcherPacketDisassembler,
};
use crate::protocol::packet_data::{PacketValue, WitcherPacketData};

verus! {

/// Which part of a message could not be read.
#[derive(Clone, Copy, Debug, PartialEq, Eq)]
pub enum MessageError {
    /// The payload does not start with the message's identifier.
    InvalidId(DisassembleError),
    /// The values behind the identifier are not a body of the message.
    InvalidBody(DisassembleError),
}

/// The values that a message with identifier type `I` puts at the start of every payload.
pub open spec fn identifier<I: AssemblePayload + View<V = ()>>() -> Seq<PacketValue> {
    I::payload(())
}

/// The payload of a message with identifier type `I` and the given body of type `B`.
pub open spec fn identified<I: AssemblePayload + View<V = ()>, B: AssemblePayload>(
    body: B::V,
) -> Seq<PacketValue> {
    identifier::<I>() + B::payload(body)
}

/// The body of type `B` that a payload holds behind an identifier of type `I`.
pub open spec fn unpack<I: DisassemblePayload, B: DisassemblePayload>(
    payload: Seq<PacketValue>,
) -> Result<B::V, MessageError> {
    match I::parsed(payload) {
        (Err(e), _) => Err(MessageError::InvalidId(e)),
        (Ok(_), used) => match B::parsed(payload.skip(used as int)).0 {
            Err(e) => Err(MessageError::InvalidBody(e)),
            Ok(body) => Ok(body),
        },
    }
}

/// An abstraction over data sent to and from the game
pub trait Message: Sized {
    /// some fixed data format at the beginning of the payload
    type Id: AssemblePayload + DisassemblePayload + PayloadRoundTrip + Default + View<V = ()>;

    /// variable content of the payload
    type Body: AssemblePayload + DisassemblePayload + PayloadRoundTrip;

    fn assemble_id() -> (id: MessageId)
        ensures
            id@ == identifier::<Self::Id>(),
    {
        let data = Self::Id::default().assemble_payload(
            WitcherPacketAssembler::new(),
        ).finish_as_payload();
        assert(Seq::<PacketValue>::empty() + identifier::<Self::Id>() =~= identifier::<Self::Id>());
        MessageId(data)
    }

    fn assemble_packet(body: Self::Body) -> (packet: WitcherPacket)
        ensures
            packet@ == identified::<Self::Id, Self::Body>(body@),
    {
        let mut assembler = WitcherPacketAssembler::new();
        let id = Self::Id::default();
        assembler = id.assemble_payload(assembler);
        assembler = body.assemble_payload(assembler);
        assert(Seq::<PacketValue>::empty() + identifier::<Self::Id>() =~= identifier::<Self::Id>());
        assembler.finish()
    }

    fn disassemble_packet(packet: WitcherPacket) -> (r: Result<Self::Body, MessageError>)
        ensures
            match unpack::<Self::Id, Self::Body>(packet@) {
                Ok(v) => r matches Ok(body) && body@ == v,
                Err(e) => r == Err::<Self::Body, MessageError>(e),
            },
    {
        let mut dasm = WitcherPacketDisassembler::new(packet);
        match Self::Id::disassemble_payload(&mut dasm) {
            Err(e) => Err(MessageError::InvalidId(e)),
            Ok(_) => match Self::Body::disassemble_payload(&mut dasm) {
                Err(e) => Err(MessageError::InvalidBody(e)),
                Ok(body) => Ok(body),
            },
        }
    }
}

/// The identifier of the message `M`: the values that every payload of it starts with.
pub open spec fn id_of<M: Message>() -> Seq<PacketValue> {
    identifier::<M::Id>()
}

/// The payload of the message `M` with the given body.
pub open spec fn packet_of<M: Message>(body: <M::Body as View>::V) -> Seq<PacketValue> {
    identified::<M::Id, M::Body>(body)
}

/// The body that a payload holds when read as the message `M`.
pub open spec fn unpacked<M: Message>(payload: Seq<PacketValue>) -> Result<
    <M::Body as View>::V,
    MessageError,
> {
    unpack::<M::Id, M::Body>(payload)
}

/// Taking a packet apart undoes putting it together: the packet assembled for a legal
/// body of the message `M` disassembles, as a packet of `M`, to that body.
pub proof fn lemma_message_round_trip<M: Message>(body: <M::Body as View>::V)
    requires
        <M::Id as PayloadRoundTrip>::legal(()),
        <M::Body as PayloadRoundTrip>::legal(body),
    ensures
        unpacked::<M>(packet_of::<M>(body)) == Ok::<<M::Body as View>::V, MessageError>(body),
{
    let id = id_of::<M>();
    let fields = <M::Body as AssemblePayload>::payload(body);
    let payload = id + fields;
    <M::Id as PayloadRoundTrip>::lemma_payload_round_trip((), fields);
    <M::Body as PayloadRoundTrip>::lemma_payload_round_trip(body, Seq::empty());
    assert(payload.skip(id.len() as int) =~= fields + Seq::<PacketValue>::empty());
}

/// A packet of a message crosses the wire as it is: where the packet assembled for a
/// body has a wire form, decoding finds that very packet in the wire form, whatever
/// follows it.
pub proof fn lemma_message_crosses_wire<M: Message>(body: <M::Body as View>::V, rest: Seq<u8>)
    requires
        WitcherPacket::encoded(packet_of::<M>(body)) is Ok,
    ensures
        WitcherPacket::parse(WitcherPacket::encoded(packet_of::<M>(body))->Ok_0 + rest) == Ok::<
            (Seq<PacketValue>, nat),
            DecodeError,
        >((packet_of::<M>(body), WitcherPacket::encoded(packet_of::<M>(body))->Ok_0.len())),
{
    <M::Id as PayloadRoundTrip>::lemma_payload_known(());
    <M::Body as PayloadRoundTrip>::lemma_payload_known(body);
    lemma_known_append(id_of::<M>(), <M::Body as AssemblePayload>::payload(body));
    lemma_packet_round_trip(packet_of::<M>(body), rest);
}

/// A registry that knows a message, and no longer identifier that the packet also
/// starts with, classifies every packet of the message as that message.
pub proof fn lemma_message_classified<M: Message>(
    ids: Set<Seq<PacketValue>>,
    body: <M::Body as View>::V,
)
    requires
        ids.contains(id_of::<M>()),
        id_of::<M>().len() > 0,
        forall|k: int|
            id_of::<M>().len() < k <= packet_of::<M>(body).len() ==> !ids.contains(
                packet_of::<M>(body).take(k),
            ),
    ensures
        classify(ids, packet_of::<M>(body)) == Some(id_of::<M>()),
{
    lemma_classify_longest(ids, id_of::<M>(), <M::Body as AssemblePayload>::payload(body));
}

/// The registered identifiers once `id` is registered too: it gets the next slot unless
/// it has one.
pub open spec fn registered_with(registered: Seq<Seq<PacketValue>>, id: Seq<PacketValue>) -> Seq<
    Seq<PacketValue>,
> {
    if registered.contains(id) {
        registered
    } else {
        registered.push(id)
    }
}

/// The registered identifiers once the messages that the game sends are registered
/// too, in the order in which a client gets to know them.
pub open spec fn registered_with_server_messages(registered: Seq<Seq<PacketValue>>) -> Seq<
    Seq<PacketValue>,
> {
    registered_with(
        registered_with(
            registered_with(
                registered_with(
                    registered_with(
                        registered_with(
                            registered,
                            id_of::<notifications::ScriptsReloadProgress>(),
                        ),
                        id_of::<requests::ScriptsRootPathResponse>(),
                    ),
                    id_of::<requests::ExecuteCommandResponse>(),
                ),
                id_of::<requests::ScriptPackagesResponse>(),
            ),
            id_of::<requests::OpcodesResponse>(),
        ),
        id_of::<requests::ConfigVarsResponse>(),
    )
}

/// The identifiers of the messages that the game sends.
pub open spec fn server_ids() -> Set<Seq<PacketValue>> {
    Set::<Seq<PacketValue>>::empty().insert(id_of::<notifications::ScriptsReloadProgress>()).insert(
        id_of::<requests::ScriptsRootPathResponse>(),
    ).insert(id_of::<requests::ExecuteCommandResponse>()).insert(
        id_of::<requests::ScriptPackagesResponse>(),
    ).insert(id_of::<requests::OpcodesResponse>()).insert(
        id_of::<requests::ConfigVarsResponse>(),
    )
}

/// A payload that starts with two values of which the first is a text none of the
/// identifiers of two values starts with is not one of these identifiers, however long it is.
proof fn lemma_no_longer_server_id(payload: Seq<PacketValue>, k: int)
    requires
        2 <= k <= payload.len(),
        k > 2 || (payload[0] == PacketValue::StringUTF8("ScriptCompiler"@) && payload[1]
            != PacketValue::StringUTF8("RootPathConfirm"@)),
    ensures
        !server_ids().contains(payload.take(k)),
{
    let front = payload.take(k);
    assert(front.len() == k);
    assert(front[0] == payload[0] && front[1] == payload[1]);
    reveal_strlit("ScriptCompiler");
    reveal_strlit("scripts");
    reveal_strlit("ScriptDebugger");
    if k == 2 {
        assert("ScriptCompiler"@.len() == 14 && "scripts"@.len() == 7);
        assert("ScriptCompiler"@[6] == 'C' && "ScriptDebugger"@[6] == 'D');
        let a = id_of::<notifications::ScriptsReloadProgress>();
        let b = id_of::<requests::ScriptsRootPathResponse>();
        let c = id_of::<requests::ExecuteCommandResponse>();
        let d = id_of::<requests::ScriptPackagesResponse>();
        let e = id_of::<requests::OpcodesResponse>();
        let f = id_of::<requests::ConfigVarsResponse>();
        assert(a.len() == 1);
        assert(b[1] == PacketValue::StringUTF8("RootPathConfirm"@));
        assert(c[0] is Int32);
        assert(d[0] == PacketValue::StringUTF8("scripts"@));
        assert(e[0] == PacketValue::StringUTF8("ScriptDebugger"@));
        assert(f[0] is Int32);
    }
}

/// The messages of the game are told apart: among the identifiers of the messages that
/// the game sends, every packet of a reply is classified as its reply, whatever its
/// body, and every packet of a report of the script compiler as such a report.
pub proof fn lemma_server_messages_classified(
    root_path: Seq<char>,
    exec: requests::ExecuteCommandResultView,
    packages: Seq<requests::ScriptPackageInfoView>,
    opcodes: Seq<requests::OpcodeBreakdownView>,
    vars: Seq<requests::ConfigVarInfoView>,
    progress: notifications::ScriptsReloadProgressView,
)
    ensures
        classify(server_ids(), packet_of::<requests::ScriptsRootPathResponse>(root_path)) == Some(
            id_of::<requests::ScriptsRootPathResponse>(),
        ),
        classify(server_ids(), packet_of::<requests::ExecuteCommandResponse>(exec)) == Some(
            id_of::<requests::ExecuteCommandResponse>(),
        ),
        classify(server_ids(), packet_of::<requests::ScriptPackagesResponse>(packages)) == Some(
            id_of::<requests::ScriptPackagesResponse>(),
        ),
        classify(server_ids(), packet_of::<requests::OpcodesResponse>(opcodes)) == Some(
            id_of::<requests::OpcodesResponse>(),
        ),
        classify(server_ids(), packet_of::<requests::ConfigVarsResponse>(vars)) == Some(
            id_of::<requests::ConfigVarsResponse>(),
        ),
        classify(server_ids(), packet_of::<notifications::ScriptsReloadProgress>(progress))
            == Some(id_of::<notifications::ScriptsReloadProgress>()),
{
    let ids = server_ids();
    lemma_two_value_message::<requests::ScriptsRootPathResponse>(root_path);
    lemma_two_value_message::<requests::ExecuteCommandResponse>(exec);
    lemma_two_value_message::<requests::ScriptPackagesResponse>(packages);
    lemma_two_value_message::<requests::OpcodesResponse>(opcodes);
    lemma_two_value_message::<requests::ConfigVarsResponse>(vars);
    let payload = packet_of::<notifications::ScriptsReloadProgress>(progress);
    let body = <notifications::ScriptsReloadProgressParams as AssemblePayload>::payload(progress);
    reveal_strlit("RootPathConfirm");
    reveal_strlit("started");
    reveal_strlit("log");
    reveal_strlit("warn");
    reveal_strlit("error");
    reveal_strlit("finished");
    assert("RootPathConfirm"@.len() == 15);
    assert(body.len() >= 2);
    assert(payload[0] == PacketValue::StringUTF8("ScriptCompiler"@));
    assert(payload[1] == body[0]);
    assert forall|k: int|
        id_of::<notifications::ScriptsReloadProgress>().len() < k <= payload.len() implies !ids.contains(
        payload.take(k),
    ) by {
        lemma_no_longer_server_id(payload, k);
    }
    lemma_message_classified::<notifications::ScriptsReloadProgress>(ids, progress);
}

/// A packet of a message whose identifier has two values is classified as that
/// message among the identifiers of the messages that the game sends, if the message
/// is one of them.
proof fn lemma_two_value_message<M: Message>(body: <M::Body as View>::V)
    requires
        id_of::<M>().len() == 2,
        server_ids().contains(id_of::<M>()),
    ensures
        classify(server_ids(), packet_of::<M>(body)) == Some(id_of::<M>()),
{
    let payload = packet_of::<M>(body);
    assert forall|k: int| id_of::<M>().len() < k <= payload.len() implies !server_ids().contains(
        payload.take(k),
    ) by {
        lemma_no_longer_server_id(payload, k);
    }
    lemma_message_classified::<M>(server_ids(), body);
}

/// The values that identify a message.
#[derive(Debug, PartialEq, Eq, Hash)]
pub struct MessageId(pub(crate) Vec<WitcherPacketData>);

impl View for MessageId {
    type V = Seq<PacketValue>;

    closed spec fn view(&self) -> Seq<PacketValue> {
        values_of(self.0@)
    }
}

impl Clone for MessageId {
    fn clone(&self) -> (id: Self)
        ensures
            id@ == self@,
    {
        MessageId(clone_payload(&self.0))
    }
}

impl MessageId {
    /// The number of values in the identifier.
    pub fn len(&self) -> (n: usize)
        ensures
            n == self@.len(),
    {
        self.0.len()
    }

    /// The values of the identifier, in order.
    pub fn values(&self) -> (values: &Vec<WitcherPacketData>)
        ensures
            values_of(values@) == self@,
    {
        &self.0
    }

    /// Whether two identifiers are the same values in the same order.
    pub fn same_as(&self, other: &MessageId) -> (same: bool)
        ensures
            same == (self@ == other@),
    {
        assert(values_of(other.0@).take(other.0@.len() as int) =~= values_of(other.0@));
        starts_with(&other.0, other.0.len(), &self.0)
    }
}

/// Whether the first `count` values of `payload` are the values of `id`.
pub fn starts_with(payload: &Vec<WitcherPacketData>, count: usize, id: &Vec<WitcherPacketData>) -> (same: bool)
    requires
        count <= payload.len(),
    ensures
        same == (values_of(payload@).take(count as int) == values_of(id@)),
{
    let ghost front = values_of(payload@).take(count as int);
    if id.len() != count {
        assert(front.len() != values_of(id@).len());
        return false;
    }
    let mut i: usize = 0;
    while i < count
        invariant
            i <= count,
            count <= payload.len(),
            id.len() == count,
            front == values_of(payload@).take(count as int),
            forall|j: int| 0 <= j < i ==> front[j] == values_of(id@)[j],
        decreases count - i,
    {
        if !payload[i].same_as(&id[i]) {
            assert(front[i as int] != values_of(id@)[i as int]);
            return false;
        }
        i += 1;
    }
    assert(front =~= values_of(id@));
    true
}

/// Whether the first `k` values of a payload are a registered identifier; the empty
/// identifier matches nothing.
pub open spec fn is_match(ids: Set<Seq<PacketValue>>, payload: Seq<PacketValue>, k: int) -> bool {
    1 <= k <= payload.len() && ids.contains(payload.take(k))
}

/// The largest length up to `upto` at which a payload matches a registered identifier,
/// and zero where it matches at none.
pub open spec fn longest_match(
    ids: Set<Seq<PacketValue>>,
    payload: Seq<PacketValue>,
    upto: nat,
) -> nat
    decreases upto,
{
    if upto == 0 {
        0
    } else if is_match(ids, payload, upto as int) {
        upto
    } else {
        longest_match(ids, payload, (upto - 1) as nat)
    }
}

/// The registered identifier that a payload starts with: the longest one, if there are
/// several.
pub open spec fn classify(ids: Set<Seq<PacketValue>>, payload: Seq<PacketValue>) -> Option<
    Seq<PacketValue>,
> {
    let k = longest_match(ids, payload, payload.len());
    if k == 0 {
        None
    } else {
        Some(payload.take(k as int))
    }
}

/// What the longest match is: a length at which the payload matches, beyond which it
/// matches nowhere up to `upto`; zero where there is no such length.
pub proof fn lemma_longest_match(ids: Set<Seq<PacketValue>>, payload: Seq<PacketValue>, upto: nat)
    ensures
        longest_match(ids, payload, upto) <= upto,
        longest_match(ids, payload, upto) > 0 ==> is_match(
            ids,
            payload,
            longest_match(ids, payload, upto) as int,
        ),
        forall|k: int|
            longest_match(ids, payload, upto) < k <= upto ==> !is_match(ids, payload, k),
    decreases upto,
{
    if upto > 0 && !is_match(ids, payload, upto as int) {
        lemma_longest_match(ids, payload, (upto - 1) as nat);
    }
}

/// A length at which the payload matches, and beyond which it matches nowhere up to
/// `upto`, is the longest match.
pub proof fn lemma_longest_match_is(
    ids: Set<Seq<PacketValue>>,
    payload: Seq<PacketValue>,
    upto: nat,
    k: nat,
)
    requires
        k <= upto,
        k > 0 ==> is_match(ids, payload, k as int),
        forall|j: int| k < j <= upto ==> !is_match(ids, payload, j),
    ensures
        longest_match(ids, payload, upto) == k,
    decreases upto,
{
    if upto > k {
        lemma_longest_match_is(ids, payload, (upto - 1) as nat, k);
    }
}

/// Longest match wins: a payload that starts with a registered, non-empty identifier is
/// classified as that identifier, unless a longer registered identifier also starts
/// the payload.
pub proof fn lemma_classify_longest(
    ids: Set<Seq<PacketValue>>,
    id: Seq<PacketValue>,
    body: Seq<PacketValue>,
)
    requires
        ids.contains(id),
        id.len() > 0,
        forall|k: int| id.len() < k <= (id + body).len() ==> !ids.contains((id + body).take(k)),
    ensures
        classify(ids, id + body) == Some(id),
{
    let payload = id + body;
    assert(payload.take(id.len() as int) =~= id);
    lemma_longest_match_is(ids, payload, payload.len(), id.len());
}

/// Whether no registered identifier is the start of another, longer one.
pub open spec fn prefix_free(ids: Set<Seq<PacketValue>>) -> bool {
    forall|a: Seq<PacketValue>, b: Seq<PacketValue>|
        #![trigger ids.contains(a), ids.contains(b)]
        ids.contains(a) && ids.contains(b) && a.len() < b.len() ==> b.take(a.len() as int) != a
}

/// Among identifiers none of which starts another, a payload made of a registered,
/// non-empty identifier and any body is classified as that identifier.
pub proof fn lemma_classify_prefix_free(
    ids: Set<Seq<PacketValue>>,
    id: Seq<PacketValue>,
    body: Seq<PacketValue>,
)
    requires
        prefix_free(ids),
        ids.contains(id),
        id.len() > 0,
    ensures
        classify(ids, id + body) == Some(id),
{
    let payload = id + body;
    assert forall|k: int| id.len() < k <= payload.len() implies !ids.contains(
        payload.take(k),
    ) by {
        let longer = payload.take(k);
        assert(longer.take(id.len() as int) =~= id);
        if ids.contains(longer) {
            assert(ids.contains(id) && ids.contains(longer));
        }
    }
    lemma_classify_longest(ids, id, body);
}

/// Messages sent to and by the game do not have a fixed format that can identify them.
/// That's why you need to know all message formats in advance and compare beginnings of
/// their payloads to properly identify raw packets. One registry should be used only
/// for messages passed in one direction, i.e. server to client or client to server.
#[derive(Debug)]
pub struct MessageIdRegistry {
    ids: Vec<MessageId>,
    max_known_id_length: usize,
}

impl MessageIdRegistry {
    /// The registered identifiers.
    pub closed spec fn ids(&self) -> Set<Seq<PacketValue>> {
        Set::new(|id: Seq<PacketValue>| exists|i: int| 0 <= i < self.ids@.len() && #[trigger] self.ids@[i]@ == id)
    }

    /// The registered identifiers in the order of their registration. The place of an
    /// identifier in this order is its slot.
    pub closed spec fn registered(&self) -> Seq<Seq<PacketValue>> {
        self.ids@.map_values(|id: MessageId| id@)
    }

    /// The length of the longest registered identifier, and zero while there is none.
    pub closed spec fn max_known_id_length(&self) -> nat {
        self.max_known_id_length as nat
    }

    /// Whether the registry holds each identifier once and knows the length of the
    /// longest.
    pub closed spec fn wf(&self) -> bool {
        &&& forall|i: int, j: int|
            0 <= i < j < self.ids@.len() ==> (#[trigger] self.ids@[i])@ != (#[trigger] self.ids@[j])@
        &&& forall|i: int| 0 <= i < self.ids@.len() ==> (#[trigger] self.ids@[i])@.len() <= self.max_known_id_length
        &&& self.max_known_id_length > 0 ==> exists|i: int|
            0 <= i < self.ids@.len() && (#[trigger] self.ids@[i])@.len() == self.max_known_id_length
    }

    /// No registered identifier is longer than the longest, and where any is
    /// registered the longest is one of them.
    pub proof fn lemma_max_length(&self)
        requires
            self.wf(),
        ensures
            forall|id: Seq<PacketValue>| #[trigger]
                self.ids().contains(id) ==> id.len() <= self.max_known_id_length(),
            self.max_known_id_length() > 0 ==> exists|id: Seq<PacketValue>| #[trigger]
                self.ids().contains(id) && id.len() == self.max_known_id_length(),
    {
        if self.max_known_id_length > 0 {
            let i = choose|i: int|
                0 <= i < self.ids@.len() && (#[trigger] self.ids@[i])@.len()
                    == self.max_known_id_length;
            assert(self.ids().contains(self.ids@[i]@));
        }
    }

    /// A slot is a number that fits a machine word.
    pub proof fn lemma_slot_bound(&self)
        ensures
            self.registered().len() <= usize::MAX,
    {
        assert(self.registered().len() == self.ids.len());
    }

    /// The registered identifiers are those that have a slot, and each has one slot.
    pub proof fn lemma_slots(&self)
        requires
            self.wf(),
        ensures
            forall|id: Seq<PacketValue>| #[trigger]
                self.ids().contains(id) <==> self.registered().contains(id),
            forall|i: int, j: int|
                0 <= i < j < self.registered().len() ==> #[trigger] self.registered()[i]
                    != #[trigger] self.registered()[j],
    {
        assert forall|id: Seq<PacketValue>| #[trigger]
            self.ids().contains(id) <==> self.registered().contains(id) by {
            if self.ids().contains(id) {
                let i = choose|i: int| 0 <= i < self.ids@.len() && #[trigger] self.ids@[i]@ == id;
                assert(self.registered()[i] == id);
            }
            if self.registered().contains(id) {
                let i = choose|i: int|
                    0 <= i < self.registered().len() && self.registered()[i] == id;
                assert(self.ids@[i]@ == id);
            }
        }
        assert forall|i: int, j: int| 0 <= i < j < self.registered().len() implies #[trigger] self.registered()[i] != #[trigger] self.registered()[j] by {
            assert(self.ids@[i]@ != self.ids@[j]@);
        }
    }

    pub fn new() -> (registry: Self)
        ensures
            registry.wf(),
            registry.ids() == Set::<Seq<PacketValue>>::empty(),
            registry.registered() == Seq::<Seq<PacketValue>>::empty(),
            registry.max_known_id_length() == 0,
    {
        let registry = Self { ids: Vec::new(), max_known_id_length: 0 };
        assert(registry.ids() =~= Set::<Seq<PacketValue>>::empty());
        assert(registry.registered() =~= Seq::<Seq<PacketValue>>::empty());
        registry
    }

    /// The number of registered identifiers.
    pub fn len(&self) -> (n: usize)
        ensures
            n == self.registered().len(),
    {
        self.ids.len()
    }

    /// The slot of the registered identifier that the first `count` values of `payload`
    /// are, if they are one.
    fn position(&self, payload: &Vec<WitcherPacketData>, count: usize) -> (found: Option<usize>)
        requires
            count <= payload.len(),
        ensures
            found is Some == self.ids().contains(values_of(payload@).take(count as int)),
            found matches Some(slot) ==> slot < self.registered().len() && self.registered()[slot as int]
                == values_of(payload@).take(count as int),
    {
        let ghost front = values_of(payload@).take(count as int);
        let mut i: usize = 0;
        while i < self.ids.len()
            invariant
                i <= self.ids.len(),
                count <= payload.len(),
                front == values_of(payload@).take(count as int),
                forall|j: int| 0 <= j < i ==> (#[trigger] self.ids@[j])@ != front,
            decreases self.ids.len() - i,
        {
            if starts_with(payload, count, &self.ids[i].0) {
                assert(self.ids@[i as int]@ == front);
                return Some(i);
            }
            i += 1;
        }
        None
    }

    /// Registers an identifier and gives its slot. An identifier that is registered
    /// already keeps its slot, and a new one gets the next.
    pub fn register(&mut self, id: &MessageId) -> (slot: usize)
        requires
            old(self).wf(),
        ensures
            final(self).wf(),
            final(self).ids() == old(self).ids().insert(id@),
            final(self).registered() == registered_with(old(self).registered(), id@),
            slot < final(self).registered().len(),
            final(self).registered()[slot as int] == id@,
            final(self).max_known_id_length() == if id@.len() > old(self).max_known_id_length() {
                id@.len()
            } else {
                old(self).max_known_id_length()
            },
    {
        let id_length = id.len();
        assert(values_of(id.0@).take(id.0@.len() as int) =~= id@);
        proof {
            self.lemma_slots();
        }
        let slot = match self.position(&id.0, id_length) {
            Some(slot) => {
                assert(self.ids() =~= old(self).ids().insert(id@));
                slot
            },
            None => {
                let ghost before = self.ids@;
                let slot = self.ids.len();
                self.ids.push(id.clone());
                assert(forall|i: int| 0 <= i < before.len() ==> self.ids@[i] == before[i]);
                assert(self.registered() =~= old(self).registered().push(id@));
                assert(self.ids() =~= old(self).ids().insert(id@)) by {
                    assert forall|x: Seq<PacketValue>| self.ids().contains(x) == old(
                        self,
                    ).ids().insert(id@).contains(x) by {
                        if old(self).ids().contains(x) {
                            let i = choose|i: int|
                                0 <= i < before.len() && #[trigger] before[i]@ == x;
                            assert(self.ids@[i]@ == x);
                        }
                        if x == id@ {
                            assert(self.ids@[before.len() as int]@ == x);
                        }
                    }
                }
                slot
            },
        };
        if id_length > self.max_known_id_length {
            self.max_known_id_length = id_length;
        }
        assert(self.wf()) by {
            if self.max_known_id_length > 0 {
                if id@.len() == self.max_known_id_length {
                    assert(self.ids@[slot as int]@.len() == self.max_known_id_length);
                } else {
                    let i = choose|i: int|
                        0 <= i < old(self).ids@.len() && (#[trigger] old(self).ids@[i])@.len()
                            == old(self).max_known_id_length;
                    assert(self.ids@[i]@.len() == self.max_known_id_length);
                }
            }
        }
        slot
    }

    pub fn register_message<T>(&mut self) -> (id: MessageId) where T: Message
        requires
            old(self).wf(),
        ensures
            id@ == id_of::<T>(),
            final(self).wf(),
            final(self).ids() == old(self).ids().insert(id_of::<T>()),
            final(self).registered() == registered_with(old(self).registered(), id_of::<T>()),
            final(self).max_known_id_length() == if id_of::<T>().len() > old(
                self,
            ).max_known_id_length() {
                id_of::<T>().len()
            } else {
                old(self).max_known_id_length()
            },
    {
        let id = T::assemble_id();
        self.register(&id);
        id
    }

    /// The slot of the registered identifier that a packet starts with: that of the
    /// longest one, if there are several.
    pub fn probe_slot(&self, packet: &WitcherPacket) -> (found: Option<usize>)
        requires
            self.wf(),
        ensures
            match classify(self.ids(), packet@) {
                Some(id) => found matches Some(slot) && slot < self.registered().len()
                    && self.registered()[slot as int] == id,
                None => found is None,
            },
    {
        match self.probe_message_id(packet) {
            Some(id) => {
                assert(values_of(id.0@).take(id.0@.len() as int) =~= id@);
                proof {
                    lemma_longest_match(self.ids(), packet@, packet@.len());
                }
                self.position(&id.0, id.0.len())
            },
            None => None,
        }
    }

    pub fn register_server_messages(&mut self)
        requires
            old(self).wf(),
        ensures
            final(self).wf(),
            final(self).ids() == old(self).ids().insert(
                id_of::<notifications::ScriptsReloadProgress>(),
            ).insert(id_of::<requests::ScriptsRootPathResponse>()).insert(
                id_of::<requests::ExecuteCommandResponse>(),
            ).insert(id_of::<requests::ScriptPackagesResponse>()).insert(
                id_of::<requests::OpcodesResponse>(),
            ).insert(id_of::<requests::ConfigVarsResponse>()),
            final(self).registered() == registered_with_server_messages(old(self).registered()),
            final(self).max_known_id_length() == if old(self).max_known_id_length() < 2 {
                2
            } else {
                old(self).max_known_id_length()
            },
    {
        self.register_message::<notifications::ScriptsReloadProgress>();
        self.register_message::<requests::ScriptsRootPathResponse>();
        self.register_message::<requests::ExecuteCommandResponse>();
        self.register_message::<requests::ScriptPackagesResponse>();
        self.register_message::<requests::OpcodesResponse>();
        self.register_message::<requests::ConfigVarsResponse>();
    }

    pub fn probe_message_id(&self, packet: &WitcherPacket) -> (found: Option<MessageId>)
        requires
            self.wf(),
        ensures
            match classify(self.ids(), packet@) {
                Some(id) => found matches Some(x) && x@ == id,
                None => found is None,
            },
    {
        let payload = packet.payload();
        let ghost values = values_of(payload@);
        let mut longest_detected: usize = 0;
        let mut i: usize = 0;
        while i < payload.len() && i < self.max_known_id_length
            invariant
                self.wf(),
                i <= payload.len(),
                values == values_of(payload@),
                longest_detected == longest_match(self.ids(), values, i as nat),
            decreases payload.len() - i,
        {
            i += 1;
            if self.position(payload, i).is_some() {
                longest_detected = i;
            }
        }
        proof {
            let ids = self.ids();
            let reached = i as nat;
            lemma_longest_match(ids, values, reached);
            self.lemma_max_length();
            assert forall|k: int| reached < k <= values.len() implies !is_match(ids, values, k) by {
                if ids.contains(values.take(k)) {
                    assert(values.take(k).len() == k);
                }
            }
            lemma_longest_match_is(ids, values, values.len(), longest_detected as nat);
        }
        if longest_detected > 0 {
            let mut id: Vec<WitcherPacketData> = Vec::new();
            let mut j: usize = 0;
            while j < longest_detected
                invariant
                    j <= longest_detected <= payload.len(),
                    id@.len() == j,
                    forall|k: int| 0 <= k < j ==> id@[k]@ == payload@[k]@,
                decreases longest_detected - j,
            {
                id.push(payload[j].clone());
                j += 1;
            }
            assert(values_of(id@) =~= values.take(longest_detected as int));
            Some(MessageId(id))
        } else {
            None
        }
    }
}

} // verus!
