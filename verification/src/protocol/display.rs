use vstd::prelude::*;
use vstd::string::{StrSliceExecFns, StringExecFns};
use crate::fmt::{decimal, decimal_text, signed_decimal, signed_decimal_text};
use crate::protocol::encoding::DynSizedEncode;
use crate::protocol::packet::WitcherPacket;
use crate::protocol::packet_data::{PacketValue, WitcherPacketData};

verus! {

/// A value as a reader sees it: a number in decimal, a text as it is, and two unknown
/// bytes by their numbers.
pub open spec fn value_text(v: PacketValue) -> Seq<char> {
    match v {
        PacketValue::Int8(d) => signed_decimal(d as int),
        PacketValue::Int16(d) => signed_decimal(d as int),
        PacketValue::Int32(d) => signed_decimal(d as int),
        PacketValue::UInt32(d) => decimal(d as nat),
        PacketValue::Int64(d) => signed_decimal(d as int),
        PacketValue::StringUTF8(s) => s,
        PacketValue::StringUTF16(s) => s,
        PacketValue::Unknown(a, b) => "UnknownTag(["@ + decimal(a as nat) + ", "@ + decimal(
            b as nat,
        ) + "])"@,
    }
}

/// A value with its type, for a reader who inspects packets; a text also with the
/// number of its characters.
pub open spec fn value_debug_text(v: PacketValue) -> Seq<char> {
    match v {
        PacketValue::Int8(d) => "Type: Int8\nValue: "@ + value_text(v),
        PacketValue::Int16(d) => "Type: Int16\nValue: "@ + value_text(v),
        PacketValue::Int32(d) => "Type: Int32\nValue: "@ + value_text(v),
        PacketValue::UInt32(d) => "Type: UInt32\nValue: "@ + value_text(v),
        PacketValue::Int64(d) => "Type: Int64\nValue: "@ + value_text(v),
        PacketValue::StringUTF8(s) => "Type: StringUTF8\nLength: "@ + decimal(s.len())
            + "\nValue: "@ + s,
        PacketValue::StringUTF16(s) => "Type: StringUTF16\nLength: "@ + decimal(s.len())
            + "\nValue: "@ + s,
        PacketValue::Unknown(a, b) => "Type: Unknown\nValue: "@ + value_text(v),
    }
}

/// The values of a payload as a reader sees them, a blank behind each.
pub open spec fn packet_text(p: Seq<PacketValue>) -> Seq<char>
    decreases p.len(),
{
    if p.len() == 0 {
        Seq::empty()
    } else {
        packet_text(p.drop_last()) + value_text(p.last()) + " "@
    }
}

/// The values of a payload with their types, each between two line feeds.
pub open spec fn payload_debug_text(p: Seq<PacketValue>) -> Seq<char>
    decreases p.len(),
{
    if p.len() == 0 {
        Seq::empty()
    } else {
        payload_debug_text(p.drop_last()) + "\n"@ + value_debug_text(p.last()) + "\n"@
    }
}

/// The rule that frames the listing of a packet.
pub open spec fn rule() -> Seq<char> {
    "---------------------------------------------------"@
}

/// The listing of a packet of `size` bytes for a reader who inspects packets.
pub open spec fn packet_debug_text(p: Seq<PacketValue>, size: nat) -> Seq<char> {
    rule() + "\n"@ + "                PACKET ("@ + decimal(size) + " bytes)\n"@ + rule()
        + payload_debug_text(p) + rule()
}

impl WitcherPacketData {
    /// The value as a reader sees it.
    pub fn display_text(&self) -> (text: String)
        ensures
            text@ == value_text(self@),
    {
        match self {
            WitcherPacketData::Int8(d) => signed_decimal_text(*d.inner() as i64),
            WitcherPacketData::Int16(d) => signed_decimal_text(*d.inner() as i64),
            WitcherPacketData::Int32(d) => signed_decimal_text(*d.inner() as i64),
            WitcherPacketData::UInt32(d) => decimal_text(*d.inner() as u64),
            WitcherPacketData::Int64(d) => signed_decimal_text(*d.inner()),
            WitcherPacketData::StringUTF8(s) => s.inner().0.clone(),
            WitcherPacketData::StringUTF16(s) => s.inner().0.clone(),
            WitcherPacketData::Unknown(t) => {
                let mut text = "UnknownTag([".to_owned();
                text.append(decimal_text(t.0[0] as u64).as_str());
                text.append(", ");
                text.append(decimal_text(t.0[1] as u64).as_str());
                text.append("])");
                text
            },
        }
    }

    /// The value with its type, for a reader who inspects packets.
    pub fn debug_text(&self) -> (text: String)
        ensures
            text@ == value_debug_text(self@),
    {
        let mut text = match self {
            WitcherPacketData::Int8(_) => "Type: Int8\nValue: ".to_owned(),
            WitcherPacketData::Int16(_) => "Type: Int16\nValue: ".to_owned(),
            WitcherPacketData::Int32(_) => "Type: Int32\nValue: ".to_owned(),
            WitcherPacketData::UInt32(_) => "Type: UInt32\nValue: ".to_owned(),
            WitcherPacketData::Int64(_) => "Type: Int64\nValue: ".to_owned(),
            WitcherPacketData::StringUTF8(s) => {
                let mut text = "Type: StringUTF8\nLength: ".to_owned();
                text.append(decimal_text(s.inner().0.as_str().unicode_len() as u64).as_str());
                text.append("\nValue: ");
                text
            },
            WitcherPacketData::StringUTF16(s) => {
                let mut text = "Type: StringUTF16\nLength: ".to_owned();
                text.append(decimal_text(s.inner().0.as_str().unicode_len() as u64).as_str());
                text.append("\nValue: ");
                text
            },
            WitcherPacketData::Unknown(_) => "Type: Unknown\nValue: ".to_owned(),
        };
        text.append(self.display_text().as_str());
        text
    }
}

impl WitcherPacket {
    /// The values of the packet as a reader sees them, a blank behind each.
    pub fn display_text(&self) -> (text: String)
        ensures
            text@ == packet_text(self@),
    {
        let payload = self.payload();
        let mut text = String::new();
        let mut i: usize = 0;
        assert(self@.take(0) =~= Seq::<PacketValue>::empty());
        while i < payload.len()
            invariant
                i <= payload.len(),
                crate::protocol::packet::values_of(payload@) == self@,
                text@ == packet_text(self@.take(i as int)),
            decreases payload.len() - i,
        {
            assert(self@.take(i + 1).drop_last() =~= self@.take(i as int));
            assert(self@.take(i + 1).last() == payload@[i as int]@);
            text.append(payload[i].display_text().as_str());
            text.append(" ");
            i += 1;
        }
        assert(self@.take(i as int) =~= self@);
        text
    }

    /// The listing of the packet for a reader who inspects packets.
    pub fn debug_text(&self) -> (text: String)
        requires
            Self::wire_size(self@) <= usize::MAX,
        ensures
            text@ == packet_debug_text(self@, Self::wire_size(self@)),
    {
        let payload = self.payload();
        let mut text = "---------------------------------------------------".to_owned();
        text.append("\n");
        text.append("                PACKET (");
        text.append(decimal_text(self.encoded_size() as u64).as_str());
        text.append(" bytes)\n");
        text.append("---------------------------------------------------");
        let ghost head = text@;
        let mut i: usize = 0;
        assert(self@.take(0) =~= Seq::<PacketValue>::empty());
        assert(text@ =~= head + payload_debug_text(self@.take(0)));
        while i < payload.len()
            invariant
                i <= payload.len(),
                crate::protocol::packet::values_of(payload@) == self@,
                text@ == head + payload_debug_text(self@.take(i as int)),
            decreases payload.len() - i,
        {
            assert(self@.take(i + 1).drop_last() =~= self@.take(i as int));
            assert(self@.take(i + 1).last() == payload@[i as int]@);
            let ghost before = payload_debug_text(self@.take(i as int));
            text.append("\n");
            text.append(payload[i].debug_text().as_str());
            text.append("\n");
            assert(text@ =~= head + (before + "\n"@ + value_debug_text(payload@[i as int]@)
                + "\n"@));
            i += 1;
        }
        assert(self@.take(i as int) =~= self@);
        text.append("---------------------------------------------------");
        text
    }
}

} // verus!
