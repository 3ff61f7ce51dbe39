use vstd::prelude::*;

use crate::buffer_reader::BuffReader;
use crate::buffer_writer::BuffWriter;
use crate::error::CodecError;
use crate::mqtt_packet::{
    empty_packet_model, spec_packet_bytes, spec_packet_parse, spec_property_len,
    spec_remaining_len, Packet, PacketModel,
};
use crate::packet_type::PacketType;
use crate::property::{
    lemma_prop_bytes_len_bound, lemma_prop_parse_ok, lemma_props_bytes_concat,
    lemma_props_bytes_len_bound, lemma_props_bytes_snoc, lemma_props_parse_wf, props_models,
    spec_props_bytes, spec_props_parse, Property, PropertyModel,
};
use crate::property_storage::{
    props_get, props_len, props_new, props_of, props_push, MAX_PROPERTIES,
};
use crate::variable_byte_integer::{
    lemma_vbi_bytes_width, lemma_vbi_parse_bounds, vbi_parse, VariableByteIntegerEncoder,
};
use crate::wire::u16_be_bytes;

verus! {

/// The acknowledgment-with-reason exemplar packet: a fixed header, the
/// remaining length, a two-byte packet identifier, a one-byte reason code,
/// the property length, and a bounded property sequence.
pub struct PubrecPacket {
    /// Fixed header: packet-type nibble high, flags nibble low.
    pub fixed_header: u8,
    /// Byte count of everything after the remaining-length field.
    pub remain_len: u32,
    pub packet_identifier: u16,
    pub reason_code: u8,
    /// Byte count of the encoded property block.
    pub property_len: u32,
    /// The properties, in insertion order, at most `MAX_PROPERTIES` of them.
    pub properties: heapless::Vec<Property, MAX_PROPERTIES>,
}

impl PubrecPacket {
    /// The exact byte count of the encoded property block, summed without
    /// writing anything, so that encoding is single-pass.
    #[verifier::loop_isolation(false)]
    pub fn property_block_len(&self) -> (r: u32)
        requires
            self.valid(),
        ensures
            r == spec_property_len(self.model()),
    {
        let ghost ms = self.model().properties;
        let count = props_len(&self.properties);
        let mut total: u32 = 0;
        let mut i: usize = 0;
        while i < count
            invariant
                i <= count,
                total == spec_props_bytes(ms.take(i as int)).len(),
                total <= i * 131075,
            decreases count - i,
        {
            let p = props_get(&self.properties, i);
            proof {
                assert(ms[i as int] == props_of(self.properties)[i as int]@);
                lemma_prop_bytes_len_bound(ms[i as int]);
            }
            let l = p.encoded_length();
            total = total + l;
            i = i + 1;
            proof {
                assert(ms.take(i as int) =~= ms.take(i as int - 1).push(ms[i as int - 1]));
                lemma_props_bytes_snoc(ms.take(i as int - 1), ms[i as int - 1]);
            }
        }
        proof {
            assert(ms.take(count as int) =~= ms);
        }
        total
    }

    /// Decode one packet of this kind from `reader`. A fixed header naming a
    /// different kind is a `WrongPacketType`, reported before anything past
    /// the header is read; on every failure the packet stands unchanged.
    #[verifier::loop_isolation(false)]
    #[verifier::rlimit(100)]
    pub fn decode_pubrec_packet(&mut self, reader: &mut BuffReader) -> (r: Result<(), CodecError>)
        requires
            old(reader).wf(),
        ensures
            final(reader).wf(),
            final(reader).buffer@ == old(reader).buffer@,
            final(reader).position >= old(reader).position,
            (match spec_packet_parse(
                old(reader).remaining(),
                PacketType::Pubrec.spec_nibble(),
                MAX_PROPERTIES as nat,
            ) {
                Ok((m, n)) => r == Ok::<(), CodecError>(()) && final(self).model() == m && final(self).valid() && final(reader).position == old(reader).position + n,
                Err(e) => r == Err::<(), CodecError>(e) && *final(self) == *old(self),
            }),
    {
        let ghost s0 = old(reader).remaining();
        let fh = match reader.read_u8() {
            Ok(b) => b,
            Err(e) => {
                return Err(e);
            },
        };
        if fh / 16 != PacketType::Pubrec.nibble() {
            return Err(CodecError::WrongPacketType);
        }
        proof {
            assert(reader.remaining() =~= s0.skip(1));
        }
        let ghost s1 = s0.skip(1);
        let rm_ln = match reader.read_variable_byte_int() {
            Ok(v) => v,
            Err(e) => {
                return Err(e);
            },
        };
        proof {
            lemma_vbi_parse_bounds(s1);
            assert(reader.remaining() =~= s0.skip(1 + (vbi_parse(s1)->Ok_0).1 as int));
        }
        let ghost t = s0.skip(1 + (vbi_parse(s1)->Ok_0).1 as int);
        let pid = match reader.read_u16() {
            Ok(v) => v,
            Err(e) => {
                return Err(e);
            },
        };
        proof {
            assert(reader.remaining() =~= t.skip(2));
        }
        let rc = match reader.read_u8() {
            Ok(v) => v,
            Err(e) => {
                return Err(e);
            },
        };
        proof {
            assert(t.skip(2)[0] == t[2]);
            assert(reader.remaining() =~= t.skip(3));
        }
        let plen = match reader.read_variable_byte_int() {
            Ok(v) => v,
            Err(e) => {
                return Err(e);
            },
        };
        proof {
            lemma_vbi_parse_bounds(t.skip(3));
            assert(reader.remaining() =~= t.skip(3).skip((vbi_parse(t.skip(3))->Ok_0).1 as int));
            assert(t.skip(3).skip((vbi_parse(t.skip(3))->Ok_0).1 as int) =~= t.skip(
                3 + (vbi_parse(t.skip(3))->Ok_0).1 as int,
            ));
        }
        let ghost u = t.skip(3 + (vbi_parse(t.skip(3))->Ok_0).1 as int);
        let ghost pos_loop = reader.position as int;
        let mut props = props_new();
        let mut left: u32 = plen;
        while left > 0
            invariant
                reader.wf(),
                reader.buffer@ == old(reader).buffer@,
                left <= plen,
                props_of(props).len() <= MAX_PROPERTIES,
                reader.position == pos_loop + (plen - left),
                reader.remaining() == u.skip(plen - left),
                (match spec_props_parse(
                    reader.remaining(),
                    left as nat,
                    (MAX_PROPERTIES - props_of(props).len()) as nat,
                ) {
                    Ok(ps) => spec_props_parse(u, plen as nat, MAX_PROPERTIES as nat) == Ok::<
                        Seq<PropertyModel>,
                        CodecError,
                    >(props_models(props_of(props)) + ps),
                    Err(e) => spec_props_parse(u, plen as nat, MAX_PROPERTIES as nat) == Err::<
                        Seq<PropertyModel>,
                        CodecError,
                    >(e),
                }),
            decreases left,
        {
            let ghost pre = reader.remaining();
            let ghost props0 = props_of(props);
            let before = reader.position;
            let p = match Property::decode_one(reader) {
                Ok(p) => p,
                Err(e) => {
                    return Err(e);
                },
            };
            let consumed = reader.position - before;
            proof {
                lemma_prop_parse_ok(pre);
            }
            if consumed > left as usize {
                return Err(CodecError::PropertyLengthMismatch);
            }
            match props_push(&mut props, p) {
                Ok(()) => {},
                Err(_) => {
                    return Err(CodecError::CapacityExceeded);
                },
            }
            left = left - consumed as u32;
            proof {
                assert(props_of(props) =~= props0.push(p));
                assert(props_models(props_of(props)) =~= props_models(props0).push(p@));
                assert(reader.remaining() =~= pre.skip(consumed as int));
                assert(reader.remaining() =~= u.skip(plen - left));
                match spec_props_parse(
                    reader.remaining(),
                    left as nat,
                    (MAX_PROPERTIES - props_of(props).len()) as nat,
                ) {
                    Ok(ps2) => {
                        assert(props_models(props0) + (seq![p@] + ps2) =~= props_models(
                            props_of(props),
                        ) + ps2);
                    },
                    Err(_) => {},
                }
            }
        }
        proof {
            lemma_props_parse_wf(u, plen as nat, MAX_PROPERTIES as nat);
            assert(props_models(props_of(props)) + Seq::<PropertyModel>::empty() =~= props_models(
                props_of(props),
            ));
        }
        self.fixed_header = fh;
        self.remain_len = rm_ln;
        self.packet_identifier = pid;
        self.reason_code = rc;
        self.property_len = plen;
        self.properties = props;
        Ok(())
    }
}

impl Packet for PubrecPacket {
    open spec fn model(&self) -> PacketModel {
        PacketModel {
            fixed_header: self.fixed_header,
            remain_len: self.remain_len,
            packet_identifier: self.packet_identifier,
            reason_code: self.reason_code,
            property_len: self.property_len,
            properties: props_models(props_of(self.properties)),
        }
    }

    open spec fn valid(&self) -> bool {
        &&& self.model().properties.len() <= MAX_PROPERTIES
        &&& forall|i: int|
            0 <= i < self.model().properties.len() ==> crate::property::prop_wf(
                #[trigger] self.model().properties[i],
            )
    }

    open spec fn kind_nibble(&self) -> u8 {
        PacketType::Pubrec.spec_nibble()
    }

    open spec fn max_properties(&self) -> nat {
        MAX_PROPERTIES as nat
    }

    fn new() -> (r: Self) {
        let properties = props_new();
        let r = PubrecPacket {
            fixed_header: 0,
            remain_len: 0,
            packet_identifier: 0,
            reason_code: 0,
            property_len: 0,
            properties,
        };
        proof {
            assert(props_models(props_of(r.properties)) =~= Seq::<PropertyModel>::empty());
            assert(r.model() == empty_packet_model());
        }
        r
    }

    #[verifier::loop_isolation(false)]
    #[verifier::rlimit(100)]
    fn encode(&self, writer: &mut BuffWriter) -> (r: Result<usize, CodecError>) {
        let ghost m = self.model();
        let ghost models = m.properties;
        let ghost pkt_bytes = spec_packet_bytes(m);
        let plen = self.property_block_len();
        proof {
            lemma_props_bytes_len_bound(models);
            lemma_vbi_bytes_width(plen as nat);
        }
        let plen_enc = match VariableByteIntegerEncoder::encode(plen) {
            Ok(a) => a,
            Err(_) => {
                proof {
                    assert(false);
                }
                return Err(CodecError::MalformedVariableInt);
            },
        };
        let plen_width = VariableByteIntegerEncoder::len(plen_enc);
        let rm_ln = plen + plen_width as u32 + 3;
        proof {
            lemma_vbi_bytes_width(rm_ln as nat);
            assert(rm_ln == spec_remaining_len(m));
        }
        let rm_enc = match VariableByteIntegerEncoder::encode(rm_ln) {
            Ok(a) => a,
            Err(_) => {
                proof {
                    assert(false);
                }
                return Err(CodecError::MalformedVariableInt);
            },
        };
        let rm_width = VariableByteIntegerEncoder::len(rm_enc);
        let total = 1 + rm_width + 3 + plen_width + plen as usize;
        proof {
            assert(total == pkt_bytes.len());
        }
        if writer.capacity - writer.position() < total {
            return Err(CodecError::EndOfBuffer);
        }
        let ghost head = seq![m.fixed_header] + crate::variable_byte_integer::vbi_bytes(
            spec_remaining_len(m),
        ) + u16_be_bytes(m.packet_identifier) + seq![m.reason_code]
            + crate::variable_byte_integer::vbi_bytes(spec_property_len(m));
        let _ = writer.write_u8(self.fixed_header);
        let _ = writer.write_variable_byte_int(rm_ln);
        let _ = writer.write_u16(self.packet_identifier);
        let _ = writer.write_u8(self.reason_code);
        let _ = writer.write_variable_byte_int(plen);
        proof {
            assert(writer.buffer@ =~= old(writer).buffer@ + head);
        }
        let count = props_len(&self.properties);
        let mut i: usize = 0;
        while i < count
            invariant
                i <= count,
                writer.wf(),
                writer.capacity == old(writer).capacity,
                writer.buffer@ == old(writer).buffer@ + head + spec_props_bytes(
                    models.take(i as int),
                ),
            decreases count - i,
        {
            let p = props_get(&self.properties, i);
            proof {
                assert(models[i as int] == props_of(self.properties)[i as int]@);
                assert(models =~= models.take(i as int) + models.skip(i as int));
                assert(models.skip(i as int) =~= seq![models[i as int]] + models.skip(
                    i as int + 1,
                ));
                lemma_props_bytes_concat(models.take(i as int), models.skip(i as int));
                lemma_props_bytes_concat(seq![models[i as int]], models.skip(i as int + 1));
                assert(Seq::<PropertyModel>::empty().push(models[i as int]) =~= seq![
                    models[i as int],
                ]);
                lemma_props_bytes_snoc(Seq::<PropertyModel>::empty(), models[i as int]);
            }
            let _ = p.encode_one(writer);
            i = i + 1;
            proof {
                assert(models.take(i as int) =~= models.take(i as int - 1).push(
                    models[i as int - 1],
                ));
                lemma_props_bytes_snoc(models.take(i as int - 1), models[i as int - 1]);
                assert(writer.buffer@ =~= old(writer).buffer@ + head + spec_props_bytes(
                    models.take(i as int),
                ));
            }
        }
        proof {
            assert(models.take(count as int) =~= models);
            assert(writer.buffer@ =~= old(writer).buffer@ + pkt_bytes);
        }
        Ok(writer.position())
    }

    fn decode(&mut self, reader: &mut BuffReader) -> (r: Result<(), CodecError>) {
        self.decode_pubrec_packet(reader)
    }

    fn set_property_len(&mut self, value: u32) {
        self.property_len = value;
    }

    fn get_property_len(&self) -> (r: u32) {
        self.property_len
    }

    fn push_to_properties(&mut self, property: Property) -> (r: Result<(), CodecError>) {
        let ghost m0 = self.model();
        let ghost p_model = property@;
        match props_push(&mut self.properties, property) {
            Ok(()) => {
                proof {
                    assert(props_models(props_of(self.properties)) =~= m0.properties.push(
                        p_model,
                    ));
                }
                Ok(())
            },
            Err(_) => Err(CodecError::CapacityExceeded),
        }
    }

    fn set_fixed_header(&mut self, header: u8) {
        self.fixed_header = header;
    }

    fn set_remaining_len(&mut self, remaining_len: u32) {
        self.remain_len = remaining_len;
    }
}

} // verus!

