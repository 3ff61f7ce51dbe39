use vstd::prelude::*;

use crate::buffer_reader::BuffReader;
use crate::buffer_writer::BuffWriter;
use crate::error::CodecError;
use crate::property::{
    lemma_props_bytes_len_bound, lemma_props_round_trip, prop_wf, spec_props_bytes,
    spec_props_parse, Property, PropertyModel,
};
use crate::variable_byte_integer::{
    lemma_vbi_bytes_width, lemma_vbi_round_trip, vbi_bytes, vbi_parse, vbi_width,
};
use crate::wire::{lemma_u16_be_round_trip, u16_be_bytes, u16_from_be};

verus! {

/// The mathematical value of an acknowledgment-shaped packet: fixed header,
/// remaining length, packet identifier, reason code, property length, and
/// the ordered property sequence.
pub struct PacketModel {
    pub fixed_header: u8,
    pub remain_len: u32,
    pub packet_identifier: u16,
    pub reason_code: u8,
    pub property_len: u32,
    pub properties: Seq<PropertyModel>,
}

/// A fresh packet's value: zeroed fields, no properties.
pub open spec fn empty_packet_model() -> PacketModel {
    PacketModel {
        fixed_header: 0,
        remain_len: 0,
        packet_identifier: 0,
        reason_code: 0,
        property_len: 0,
        properties: Seq::<PropertyModel>::empty(),
    }
}

/// Every property can stand on the wire, and the sequence fits `max` slots.
pub open spec fn props_encodable(ps: Seq<PropertyModel>, max: nat) -> bool {
    &&& ps.len() <= max
    &&& forall|i: int| 0 <= i < ps.len() ==> prop_wf(#[trigger] ps[i])
}

/// The property-length value that the property sequence itself yields: the
/// exact byte count of the encoded property block.
pub open spec fn spec_property_len(m: PacketModel) -> nat {
    spec_props_bytes(m.properties).len()
}

/// The remaining-length value: two identifier bytes and the reason code,
/// plus the property-length field's own width, plus the property block.
pub open spec fn spec_remaining_len(m: PacketModel) -> nat {
    3 + vbi_width(spec_property_len(m)) + spec_property_len(m)
}

/// The full wire bytes of an acknowledgment-shaped packet. Both length
/// fields are computed from the property sequence itself, never taken from
/// the stored `remain_len` and `property_len` fields.
pub open spec fn spec_packet_bytes(m: PacketModel) -> Seq<u8> {
    seq![m.fixed_header] + vbi_bytes(spec_remaining_len(m)) + u16_be_bytes(m.packet_identifier)
        + seq![m.reason_code] + vbi_bytes(spec_property_len(m)) + spec_props_bytes(m.properties)
}

/// Decode an acknowledgment-shaped packet at the head of `s`, for the kind
/// whose fixed-header nibble is `nibble`, with `max_props` property slots.
/// A wrong nibble stops the parse before anything further is read.
pub open spec fn spec_packet_parse(s: Seq<u8>, nibble: u8, max_props: nat) -> Result<
    (PacketModel, nat),
    CodecError,
> {
    if s.len() == 0 {
        Err(CodecError::EndOfBuffer)
    } else if s[0] / 16 != nibble {
        Err(CodecError::WrongPacketType)
    } else {
        match vbi_parse(s.skip(1)) {
            Err(e) => Err(e),
            Ok((rl, nrl)) => {
                let t = s.skip(1 + nrl as int);
                if t.len() < 2 {
                    Err(CodecError::EndOfBuffer)
                } else if t.len() < 3 {
                    Err(CodecError::EndOfBuffer)
                } else {
                    match vbi_parse(t.skip(3)) {
                        Err(e) => Err(e),
                        Ok((plen, npl)) => match spec_props_parse(
                            t.skip(3 + npl as int),
                            plen,
                            max_props,
                        ) {
                            Err(e) => Err(e),
                            Ok(ps) => Ok(
                                (
                                    PacketModel {
                                        fixed_header: s[0],
                                        remain_len: rl as u32,
                                        packet_identifier: u16_from_be(t[0], t[1]),
                                        reason_code: t[2],
                                        property_len: plen as u32,
                                        properties: ps,
                                    },
                                    (1 + nrl + 3 + npl + plen) as nat,
                                ),
                            ),
                        },
                    }
                }
            },
        }
    }
}

/// What `encode` leaves behind: with enough room, exactly the packet's wire
/// bytes are appended and the writer's final position is returned; with too
/// little room, `EndOfBuffer` and no change.
pub open spec fn encode_post(
    m: PacketModel,
    w0: BuffWriter,
    w1: BuffWriter,
    r: Result<usize, CodecError>,
) -> bool {
    &&& w1.wf()
    &&& w1.capacity == w0.capacity
    &&& w0.space() >= spec_packet_bytes(m).len() ==> (r matches Ok(n) && n == w1.buffer@.len()
        && w1.buffer@ == w0.buffer@ + spec_packet_bytes(m))
    &&& w0.space() < spec_packet_bytes(m).len() ==> r == Err::<usize, CodecError>(
        CodecError::EndOfBuffer,
    ) && w1.buffer@ == w0.buffer@
}

/// The capability set every packet kind of this shape implements.
pub trait Packet: Sized {
    /// The packet's mathematical value.
    spec fn model(&self) -> PacketModel;

    /// The packet can be encoded: every stored property is well-formed and
    /// the sequence fits the kind's capacity.
    spec fn valid(&self) -> bool;

    /// The fixed-header nibble this kind answers to.
    spec fn kind_nibble(&self) -> u8;

    /// The property slots this kind offers.
    spec fn max_properties(&self) -> nat;

    /// A fresh packet: zeroed fields, empty property sequence.
    fn new() -> (r: Self)
        ensures
            r.valid(),
            r.model() == empty_packet_model(),
    ;

    /// Serialize the packet into `writer`, fields in wire order, both length
    /// fields computed from the property sequence. Returns the writer's
    /// final position.
    fn encode(&self, writer: &mut BuffWriter) -> (r: Result<usize, CodecError>)
        requires
            self.valid(),
            old(writer).wf(),
        ensures
            encode_post(self.model(), *old(writer), *final(writer), r),
    ;

    /// Decode one packet from `reader`, replacing this packet's value. On
    /// any failure the packet stands exactly as it was before the call.
    fn decode(&mut self, reader: &mut BuffReader) -> (r: Result<(), CodecError>)
        requires
            old(reader).wf(),
        ensures
            final(reader).wf(),
            final(reader).buffer@ == old(reader).buffer@,
            final(reader).position >= old(reader).position,
            (match spec_packet_parse(
                old(reader).remaining(),
                old(self).kind_nibble(),
                old(self).max_properties(),
            ) {
                Ok((m, n)) => r == Ok::<(), CodecError>(()) && final(self).model() == m && final(self).valid() && final(reader).position == old(reader).position + n,
                Err(e) => r == Err::<(), CodecError>(e) && *final(self) == *old(self),
            }),
    ;

    /// Store a property-length value.
    fn set_property_len(&mut self, value: u32)
        ensures
            final(self).model() == (PacketModel { property_len: value, ..old(self).model() }),
            final(self).valid() == old(self).valid(),
    ;

    /// The stored property-length value.
    fn get_property_len(&self) -> (r: u32)
        ensures
            r == self.model().property_len,
    ;

    /// Append one property, keeping insertion order. Past the capacity
    /// bound: `CapacityExceeded`, and the stored properties stand unchanged.
    fn push_to_properties(&mut self, property: Property) -> (r: Result<(), CodecError>)
        requires
            prop_wf(property@),
        ensures
            old(self).model().properties.len() < old(self).max_properties() ==> r == Ok::<
                (),
                CodecError,
            >(()) && final(self).model() == (PacketModel {
                properties: old(self).model().properties.push(property@),
                ..old(self).model()
            }),
            old(self).model().properties.len() >= old(self).max_properties() ==> r == Err::<
                (),
                CodecError,
            >(CodecError::CapacityExceeded) && final(self).model() == old(self).model(),
            old(self).valid() ==> final(self).valid(),
    ;

    /// Store a fixed-header byte.
    fn set_fixed_header(&mut self, header: u8)
        ensures
            final(self).model() == (PacketModel { fixed_header: header, ..old(self).model() }),
            final(self).valid() == old(self).valid(),
    ;

    /// Store a remaining-length value.
    fn set_remaining_len(&mut self, remaining_len: u32)
        ensures
            final(self).model() == (PacketModel {
                remain_len: remaining_len,
                ..old(self).model()
            }),
            final(self).valid() == old(self).valid(),
    ;
}

/// Law: round trip — decoding the encoding of any packet constructible
/// within the capacity bounds, whose stored length fields agree with its
/// property sequence, yields that packet back, field for field and with the
/// properties in their original order, consuming exactly the encoded bytes.
#[verifier::rlimit(100)]
pub proof fn lemma_packet_round_trip(m: PacketModel, max_props: nat)
    requires
        props_encodable(m.properties, max_props),
        max_props <= 16,
        m.property_len == spec_property_len(m),
        m.remain_len == spec_remaining_len(m),
    ensures
        spec_packet_parse(spec_packet_bytes(m), (m.fixed_header / 16) as u8, max_props) == Ok::<
            (PacketModel, nat),
            CodecError,
        >((m, spec_packet_bytes(m).len() as nat)),
{
    let plen = spec_property_len(m);
    let rl = spec_remaining_len(m);
    let pb = spec_props_bytes(m.properties);
    let s = spec_packet_bytes(m);
    lemma_props_bytes_len_bound(m.properties);
    lemma_vbi_bytes_width(plen);
    lemma_vbi_bytes_width(rl);
    assert(s[0] == m.fixed_header);
    let rest1 = u16_be_bytes(m.packet_identifier) + seq![m.reason_code] + vbi_bytes(plen) + pb;
    assert(s.skip(1) =~= vbi_bytes(rl) + rest1);
    lemma_vbi_round_trip(rl, rest1);
    let nrl = vbi_width(rl);
    let t = s.skip(1 + nrl as int);
    assert(t =~= rest1);
    lemma_u16_be_round_trip(m.packet_identifier);
    assert(t[0] == u16_be_bytes(m.packet_identifier)[0]);
    assert(t[1] == u16_be_bytes(m.packet_identifier)[1]);
    assert(t[2] == m.reason_code);
    assert(t.skip(3) =~= vbi_bytes(plen) + pb);
    lemma_vbi_round_trip(plen, pb);
    let npl = vbi_width(plen);
    assert(t.skip(3).skip(npl as int) =~= t.skip(3 + npl as int));
    assert(t.skip(3 + npl as int) =~= pb);
    lemma_props_round_trip(m.properties, Seq::<u8>::empty(), max_props);
    assert(pb + Seq::<u8>::empty() =~= pb);
    assert(s.len() == 1 + nrl + 3 + npl + plen);
}

/// Law: remaining-length correctness — the remaining-length value written
/// into the wire bytes equals the total encoded size minus the fixed header
/// byte and the remaining-length field's own width.
pub proof fn lemma_remaining_len_correct(m: PacketModel)
    requires
        props_encodable(m.properties, 16),
    ensures
        spec_remaining_len(m) == spec_packet_bytes(m).len() - 1 - vbi_width(spec_remaining_len(m)),
{
    lemma_props_bytes_len_bound(m.properties);
    lemma_vbi_bytes_width(spec_remaining_len(m) as nat);
    lemma_vbi_bytes_width(spec_property_len(m) as nat);
}

} // verus!
