use vstd::prelude::*;

use crate::buffer_reader::BuffReader;
use crate::buffer_writer::BuffWriter;
use crate::error::CodecError;
use crate::variable_byte_integer::{
    lemma_vbi_bytes_width, lemma_vbi_parse_bounds, lemma_vbi_round_trip, vbi_bytes, vbi_parse,
    VARIABLE_BYTE_INT_MAX,
};
use crate::wire::{
    lemma_u16_be_round_trip, lemma_u32_be_round_trip, u16_be_bytes, u16_from_be, u32_be_bytes,
    u32_from_be,
};

verus! {

/// The seven wire shapes a property payload can take.
#[derive(Clone, Copy, Debug, PartialEq, Eq, Structural)]
pub enum PropertyType {
    Byte,
    TwoByteInt,
    FourByteInt,
    VariableByteInt,
    Utf8String,
    StringPair,
    BinaryData,
}

/// The fixed lookup from a property identifier to its payload's wire shape;
/// `None` for an identifier with no known mapping.
pub open spec fn spec_property_shape(id: u32) -> Option<PropertyType> {
    if id == 1 || id == 23 || id == 25 || id == 36 || id == 37 || id == 40 || id == 41 || id
        == 42 {
        Some(PropertyType::Byte)
    } else if id == 19 || id == 33 || id == 34 || id == 35 {
        Some(PropertyType::TwoByteInt)
    } else if id == 2 || id == 17 || id == 24 || id == 39 {
        Some(PropertyType::FourByteInt)
    } else if id == 11 {
        Some(PropertyType::VariableByteInt)
    } else if id == 3 || id == 8 || id == 18 || id == 21 || id == 26 || id == 28 || id == 31 {
        Some(PropertyType::Utf8String)
    } else if id == 38 {
        Some(PropertyType::StringPair)
    } else if id == 9 || id == 22 {
        Some(PropertyType::BinaryData)
    } else {
        None
    }
}

/// The fixed identifier-to-shape lookup, executable form.
pub fn property_shape(id: u32) -> (r: Option<PropertyType>)
    ensures
        r == spec_property_shape(id),
{
    if id == 1 || id == 23 || id == 25 || id == 36 || id == 37 || id == 40 || id == 41 || id
        == 42 {
        Some(PropertyType::Byte)
    } else if id == 19 || id == 33 || id == 34 || id == 35 {
        Some(PropertyType::TwoByteInt)
    } else if id == 2 || id == 17 || id == 24 || id == 39 {
        Some(PropertyType::FourByteInt)
    } else if id == 11 {
        Some(PropertyType::VariableByteInt)
    } else if id == 3 || id == 8 || id == 18 || id == 21 || id == 26 || id == 28 || id == 31 {
        Some(PropertyType::Utf8String)
    } else if id == 38 {
        Some(PropertyType::StringPair)
    } else if id == 9 || id == 22 {
        Some(PropertyType::BinaryData)
    } else {
        None
    }
}

/// The mathematical value of one property payload.
pub enum PropertyValueModel {
    Byte(u8),
    TwoByteInt(u16),
    FourByteInt(u32),
    VariableByteInt(u32),
    Utf8String(Seq<u8>),
    StringPair(Seq<u8>, Seq<u8>),
    BinaryData(Seq<u8>),
}

/// One property payload. UTF-8 string payloads are carried as their encoded
/// bytes: the codec checks wire-format well-formedness only, not text.
#[derive(Clone, Debug, PartialEq, Eq)]
pub enum PropertyValue {
    Byte(u8),
    TwoByteInt(u16),
    FourByteInt(u32),
    VariableByteInt(u32),
    Utf8String(Vec<u8>),
    StringPair(Vec<u8>, Vec<u8>),
    BinaryData(Vec<u8>),
}

impl View for PropertyValue {
    type V = PropertyValueModel;

    open spec fn view(&self) -> PropertyValueModel {
        match self {
            PropertyValue::Byte(b) => PropertyValueModel::Byte(*b),
            PropertyValue::TwoByteInt(x) => PropertyValueModel::TwoByteInt(*x),
            PropertyValue::FourByteInt(x) => PropertyValueModel::FourByteInt(*x),
            PropertyValue::VariableByteInt(x) => PropertyValueModel::VariableByteInt(*x),
            PropertyValue::Utf8String(s) => PropertyValueModel::Utf8String(s@),
            PropertyValue::StringPair(a, b) => PropertyValueModel::StringPair(a@, b@),
            PropertyValue::BinaryData(d) => PropertyValueModel::BinaryData(d@),
        }
    }
}

/// The mathematical value of one property.
pub struct PropertyModel {
    pub identifier: u32,
    pub value: PropertyValueModel,
}

/// One property: an identifier tag plus the typed payload whose wire shape
/// the identifier determines.
#[derive(Clone, Debug, PartialEq, Eq)]
pub struct Property {
    pub identifier: u32,
    pub value: PropertyValue,
}

impl View for Property {
    type V = PropertyModel;

    open spec fn view(&self) -> PropertyModel {
        PropertyModel { identifier: self.identifier, value: self.value@ }
    }
}

/// The wire shape of a payload value.
pub open spec fn shape_of(v: PropertyValueModel) -> PropertyType {
    match v {
        PropertyValueModel::Byte(_) => PropertyType::Byte,
        PropertyValueModel::TwoByteInt(_) => PropertyType::TwoByteInt,
        PropertyValueModel::FourByteInt(_) => PropertyType::FourByteInt,
        PropertyValueModel::VariableByteInt(_) => PropertyType::VariableByteInt,
        PropertyValueModel::Utf8String(_) => PropertyType::Utf8String,
        PropertyValueModel::StringPair(_, _) => PropertyType::StringPair,
        PropertyValueModel::BinaryData(_) => PropertyType::BinaryData,
    }
}

/// The payload fits its wire shape's limits.
pub open spec fn value_wf(v: PropertyValueModel) -> bool {
    match v {
        PropertyValueModel::VariableByteInt(x) => x <= VARIABLE_BYTE_INT_MAX,
        PropertyValueModel::Utf8String(s) => s.len() <= 65535,
        PropertyValueModel::StringPair(a, b) => a.len() <= 65535 && b.len() <= 65535,
        PropertyValueModel::BinaryData(d) => d.len() <= 65535,
        _ => true,
    }
}

/// A property that can stand on the wire: its identifier is known and names
/// its payload's shape, and every length-prefixed payload fits its prefix.
pub open spec fn prop_wf(p: PropertyModel) -> bool {
    &&& spec_property_shape(p.identifier) == Some(shape_of(p.value))
    &&& value_wf(p.value)
}

/// The wire bytes of one length-prefixed byte run: a two-byte length, then
/// that many bytes.
pub open spec fn lp_bytes(d: Seq<u8>) -> Seq<u8> {
    u16_be_bytes(d.len() as u16) + d
}

/// The wire bytes of one payload.
pub open spec fn spec_value_bytes(v: PropertyValueModel) -> Seq<u8> {
    match v {
        PropertyValueModel::Byte(b) => seq![b],
        PropertyValueModel::TwoByteInt(x) => u16_be_bytes(x),
        PropertyValueModel::FourByteInt(x) => u32_be_bytes(x),
        PropertyValueModel::VariableByteInt(x) => vbi_bytes(x as nat),
        PropertyValueModel::Utf8String(s) => lp_bytes(s),
        PropertyValueModel::StringPair(a, b) => lp_bytes(a) + lp_bytes(b),
        PropertyValueModel::BinaryData(d) => lp_bytes(d),
    }
}

/// The wire bytes of one property: identifier, then payload.
pub open spec fn spec_prop_bytes(p: PropertyModel) -> Seq<u8> {
    vbi_bytes(p.identifier as nat) + spec_value_bytes(p.value)
}

/// Decode one length-prefixed byte run at the head of `s`.
pub open spec fn spec_lp_parse(s: Seq<u8>) -> Result<(Seq<u8>, nat), CodecError> {
    if s.len() < 2 {
        Err(CodecError::EndOfBuffer)
    } else {
        let l = u16_from_be(s[0], s[1]) as int;
        if s.len() >= 2 + l {
            Ok((s.subrange(2, 2 + l), (2 + l) as nat))
        } else {
            Err(CodecError::EndOfBuffer)
        }
    }
}

/// Decode one payload of the given shape at the head of `s`.
pub open spec fn spec_value_parse(s: Seq<u8>, shape: PropertyType) -> Result<
    (PropertyValueModel, nat),
    CodecError,
> {
    match shape {
        PropertyType::Byte => if s.len() >= 1 {
            Ok((PropertyValueModel::Byte(s[0]), 1 as nat))
        } else {
            Err(CodecError::EndOfBuffer)
        },
        PropertyType::TwoByteInt => if s.len() >= 2 {
            Ok((PropertyValueModel::TwoByteInt(u16_from_be(s[0], s[1])), 2 as nat))
        } else {
            Err(CodecError::EndOfBuffer)
        },
        PropertyType::FourByteInt => if s.len() >= 4 {
            Ok((PropertyValueModel::FourByteInt(u32_from_be(s[0], s[1], s[2], s[3])), 4 as nat))
        } else {
            Err(CodecError::EndOfBuffer)
        },
        PropertyType::VariableByteInt => match vbi_parse(s) {
            Ok((v, n)) => Ok((PropertyValueModel::VariableByteInt(v as u32), n)),
            Err(e) => Err(e),
        },
        PropertyType::Utf8String => match spec_lp_parse(s) {
            Ok((d, n)) => Ok((PropertyValueModel::Utf8String(d), n)),
            Err(e) => Err(e),
        },
        PropertyType::StringPair => match spec_lp_parse(s) {
            Ok((a, n)) => match spec_lp_parse(s.skip(n as int)) {
                Ok((b, m)) => Ok((PropertyValueModel::StringPair(a, b), (n + m) as nat)),
                Err(e) => Err(e),
            },
            Err(e) => Err(e),
        },
        PropertyType::BinaryData => match spec_lp_parse(s) {
            Ok((d, n)) => Ok((PropertyValueModel::BinaryData(d), n)),
            Err(e) => Err(e),
        },
    }
}

/// Decode one property at the head of `s`: identifier, shape lookup, payload.
/// An identifier without a mapping is an `UnknownPropertyIdentifier`.
pub open spec fn spec_prop_parse(s: Seq<u8>) -> Result<(PropertyModel, nat), CodecError> {
    match vbi_parse(s) {
        Err(e) => Err(e),
        Ok((id, n)) => match spec_property_shape(id as u32) {
            None => Err(CodecError::UnknownPropertyIdentifier),
            Some(shape) => match spec_value_parse(s.skip(n as int), shape) {
                Ok((v, m)) => Ok(
                    (PropertyModel { identifier: id as u32, value: v }, (n + m) as nat),
                ),
                Err(e) => Err(e),
            },
        },
    }
}

proof fn lemma_value_parse_ok(s: Seq<u8>, shape: PropertyType)
    ensures
        spec_value_parse(s, shape) matches Ok((v, m)) ==> shape_of(v) == shape && value_wf(v) && 1
            <= m <= s.len(),
{
    match shape {
        PropertyType::VariableByteInt => {
            lemma_vbi_parse_bounds(s);
        },
        PropertyType::StringPair => {
            match spec_lp_parse(s) {
                Ok((a, n)) => {
                    assert(n <= s.len());
                },
                Err(_) => {},
            }
        },
        _ => {},
    }
}

/// A parsed property is well-formed and consumed between one byte and all
/// of `s`.
pub proof fn lemma_prop_parse_ok(s: Seq<u8>)
    ensures
        spec_prop_parse(s) matches Ok((p, n)) ==> prop_wf(p) && 1 <= n <= s.len(),
{
    lemma_vbi_parse_bounds(s);
    match vbi_parse(s) {
        Ok((id, n1)) => {
            match spec_property_shape(id as u32) {
                Some(shape) => {
                    lemma_value_parse_ok(s.skip(n1 as int), shape);
                },
                None => {},
            }
        },
        Err(_) => {},
    }
}

#[verifier::rlimit(100)]
proof fn lemma_lp_round_trip(d: Seq<u8>, rest: Seq<u8>)
    requires
        d.len() <= 65535,
    ensures
        spec_lp_parse(lp_bytes(d) + rest) == Ok::<(Seq<u8>, nat), CodecError>(
            (d, (2 + d.len()) as nat),
        ),
{
    let s = lp_bytes(d) + rest;
    lemma_u16_be_round_trip(d.len() as u16);
    assert(s[0] == u16_be_bytes(d.len() as u16)[0]);
    assert(s[1] == u16_be_bytes(d.len() as u16)[1]);
    assert(u16_from_be(s[0], s[1]) == d.len() as u16);
    assert(s.subrange(2, 2 + d.len() as int) =~= d);
}

#[verifier::rlimit(100)]
proof fn lemma_string_pair_round_trip(a: Seq<u8>, b: Seq<u8>, rest: Seq<u8>)
    requires
        a.len() <= 65535,
        b.len() <= 65535,
    ensures
        spec_value_parse((lp_bytes(a) + lp_bytes(b)) + rest, PropertyType::StringPair) == Ok::<
            (PropertyValueModel, nat),
            CodecError,
        >((PropertyValueModel::StringPair(a, b), (lp_bytes(a) + lp_bytes(b)).len() as nat)),
{
    assert((lp_bytes(a) + lp_bytes(b)) + rest =~= lp_bytes(a) + (lp_bytes(b) + rest));
    lemma_lp_round_trip(a, lp_bytes(b) + rest);
    assert((lp_bytes(a) + (lp_bytes(b) + rest)).skip(2 + a.len() as int) =~= lp_bytes(b) + rest);
    lemma_lp_round_trip(b, rest);
}

proof fn lemma_value_rt_byte(b: u8, rest: Seq<u8>)
    ensures
        spec_value_parse(seq![b] + rest, PropertyType::Byte) == Ok::<
            (PropertyValueModel, nat),
            CodecError,
        >((PropertyValueModel::Byte(b), 1 as nat)),
{
    assert((seq![b] + rest)[0] == b);
}

proof fn lemma_value_rt_two(x: u16, rest: Seq<u8>)
    ensures
        spec_value_parse(u16_be_bytes(x) + rest, PropertyType::TwoByteInt) == Ok::<
            (PropertyValueModel, nat),
            CodecError,
        >((PropertyValueModel::TwoByteInt(x), 2 as nat)),
{
    lemma_u16_be_round_trip(x);
}

proof fn lemma_value_rt_four(x: u32, rest: Seq<u8>)
    ensures
        spec_value_parse(u32_be_bytes(x) + rest, PropertyType::FourByteInt) == Ok::<
            (PropertyValueModel, nat),
            CodecError,
        >((PropertyValueModel::FourByteInt(x), 4 as nat)),
{
    lemma_u32_be_round_trip(x);
}

proof fn lemma_value_rt_vbi(x: u32, rest: Seq<u8>)
    requires
        x <= VARIABLE_BYTE_INT_MAX,
    ensures
        spec_value_parse(vbi_bytes(x as nat) + rest, PropertyType::VariableByteInt) == Ok::<
            (PropertyValueModel, nat),
            CodecError,
        >((PropertyValueModel::VariableByteInt(x), vbi_bytes(x as nat).len() as nat)),
{
    lemma_vbi_round_trip(x as nat, rest);
    lemma_vbi_bytes_width(x as nat);
}

#[verifier::rlimit(100)]
proof fn lemma_value_rt_string(d: Seq<u8>, rest: Seq<u8>)
    requires
        d.len() <= 65535,
    ensures
        spec_value_parse(lp_bytes(d) + rest, PropertyType::Utf8String) == Ok::<
            (PropertyValueModel, nat),
            CodecError,
        >((PropertyValueModel::Utf8String(d), lp_bytes(d).len() as nat)),
{
    lemma_lp_round_trip(d, rest);
}

#[verifier::rlimit(100)]
proof fn lemma_value_rt_binary(d: Seq<u8>, rest: Seq<u8>)
    requires
        d.len() <= 65535,
    ensures
        spec_value_parse(lp_bytes(d) + rest, PropertyType::BinaryData) == Ok::<
            (PropertyValueModel, nat),
            CodecError,
        >((PropertyValueModel::BinaryData(d), lp_bytes(d).len() as nat)),
{
    lemma_lp_round_trip(d, rest);
}

proof fn lemma_value_round_trip(v: PropertyValueModel, rest: Seq<u8>)
    requires
        value_wf(v),
    ensures
        spec_value_parse(spec_value_bytes(v) + rest, shape_of(v)) == Ok::<
            (PropertyValueModel, nat),
            CodecError,
        >((v, spec_value_bytes(v).len() as nat)),
{
    match v {
        PropertyValueModel::Byte(b) => {
            lemma_value_rt_byte(b, rest);
        },
        PropertyValueModel::TwoByteInt(x) => {
            lemma_value_rt_two(x, rest);
        },
        PropertyValueModel::FourByteInt(x) => {
            lemma_value_rt_four(x, rest);
        },
        PropertyValueModel::VariableByteInt(x) => {
            lemma_value_rt_vbi(x, rest);
        },
        PropertyValueModel::Utf8String(s0) => {
            lemma_value_rt_string(s0, rest);
        },
        PropertyValueModel::StringPair(a, b) => {
            lemma_string_pair_round_trip(a, b, rest);
        },
        PropertyValueModel::BinaryData(d) => {
            lemma_value_rt_binary(d, rest);
        },
    }
}

/// Law: decoding the wire bytes of a well-formed property — with any bytes
/// following them — yields that property back and consumes exactly its own
/// encoded length.
pub proof fn lemma_prop_round_trip(p: PropertyModel, rest: Seq<u8>)
    requires
        prop_wf(p),
    ensures
        spec_prop_parse(spec_prop_bytes(p) + rest) == Ok::<(PropertyModel, nat), CodecError>(
            (p, spec_prop_bytes(p).len() as nat),
        ),
{
    let id = p.identifier as nat;
    let vb = spec_value_bytes(p.value);
    assert(id <= 42);
    assert(spec_prop_bytes(p) + rest =~= vbi_bytes(id) + (vb + rest));
    lemma_vbi_round_trip(id, vb + rest);
    lemma_vbi_bytes_width(id);
    assert((vbi_bytes(id) + (vb + rest)).skip(1) =~= vb + rest);
    lemma_value_round_trip(p.value, rest);
}

/// The models of a sequence of properties.
pub open spec fn props_models(s: Seq<Property>) -> Seq<PropertyModel> {
    s.map_values(|p: Property| p@)
}

/// One well-formed property takes between 2 and 131075 wire bytes.
pub proof fn lemma_prop_bytes_len_bound(p: PropertyModel)
    requires
        prop_wf(p),
    ensures
        2 <= spec_prop_bytes(p).len() <= 131075,
{
    lemma_vbi_bytes_width(p.identifier as nat);
    match p.value {
        PropertyValueModel::VariableByteInt(x) => {
            lemma_vbi_bytes_width(x as nat);
        },
        _ => {},
    }
}

impl Property {
    /// The byte count `encode_one` will produce, computed without writing:
    /// callers use it to pre-compute length prefixes, so that encoding is
    /// single-pass once the lengths are known.
    pub fn encoded_length(&self) -> (r: u32)
        requires
            prop_wf(self@),
        ensures
            r == spec_prop_bytes(self@).len(),
    {
        proof {
            lemma_vbi_bytes_width(self.identifier as nat);
        }
        let payload: u32 = match &self.value {
            PropertyValue::Byte(_) => 1,
            PropertyValue::TwoByteInt(_) => 2,
            PropertyValue::FourByteInt(_) => 4,
            PropertyValue::VariableByteInt(x) => {
                proof {
                    lemma_vbi_bytes_width(*x as nat);
                }
                if *x < 128 {
                    1
                } else if *x < 16384 {
                    2
                } else if *x < 2097152 {
                    3
                } else {
                    4
                }
            },
            PropertyValue::Utf8String(s) => 2 + s.len() as u32,
            PropertyValue::StringPair(a, b) => 4 + a.len() as u32 + b.len() as u32,
            PropertyValue::BinaryData(d) => 2 + d.len() as u32,
        };
        1 + payload
    }

    fn write_value(&self, writer: &mut BuffWriter) -> (r: Result<(), CodecError>)
        requires
            prop_wf(self@),
            old(writer).wf(),
            old(writer).space() >= spec_value_bytes(self.value@).len(),
        ensures
            final(writer).wf(),
            final(writer).capacity == old(writer).capacity,
            r is Ok,
            final(writer).buffer@ == old(writer).buffer@ + spec_value_bytes(self.value@),
    {
        match &self.value {
            PropertyValue::Byte(b) => {
                let r = writer.write_u8(*b);
                proof {
                    assert(writer.buffer@ =~= old(writer).buffer@ + spec_value_bytes(
                        self.value@,
                    ));
                }
                r
            },
            PropertyValue::TwoByteInt(x) => writer.write_u16(*x),
            PropertyValue::FourByteInt(x) => writer.write_u32(*x),
            PropertyValue::VariableByteInt(x) => {
                proof {
                    lemma_vbi_bytes_width(*x as nat);
                }
                writer.write_variable_byte_int(*x)
            },
            PropertyValue::Utf8String(s) => {
                let r1 = writer.write_u16(s.len() as u16);
                let r2 = writer.write_slice(s);
                proof {
                    assert(writer.buffer@ =~= old(writer).buffer@ + spec_value_bytes(
                        self.value@,
                    ));
                }
                r2
            },
            PropertyValue::StringPair(a, b) => {
                let r1 = writer.write_u16(a.len() as u16);
                let r2 = writer.write_slice(a);
                let r3 = writer.write_u16(b.len() as u16);
                let r4 = writer.write_slice(b);
                proof {
                    assert(writer.buffer@ =~= old(writer).buffer@ + spec_value_bytes(
                        self.value@,
                    ));
                }
                r4
            },
            PropertyValue::BinaryData(d) => {
                let r1 = writer.write_u16(d.len() as u16);
                let r2 = writer.write_slice(d);
                proof {
                    assert(writer.buffer@ =~= old(writer).buffer@ + spec_value_bytes(
                        self.value@,
                    ));
                }
                r2
            },
        }
    }

    /// Write one property: the identifier, then the payload per its shape.
    /// Returns the bytes written. With too little room, `EndOfBuffer` and no
    /// change to the writer.
    pub fn encode_one(&self, writer: &mut BuffWriter) -> (r: Result<u32, CodecError>)
        requires
            prop_wf(self@),
            old(writer).wf(),
        ensures
            final(writer).wf(),
            final(writer).capacity == old(writer).capacity,
            old(writer).space() >= spec_prop_bytes(self@).len() ==> (r matches Ok(n) && n
                == spec_prop_bytes(self@).len() && final(writer).buffer@ == old(writer).buffer@
                + spec_prop_bytes(self@)),
            old(writer).space() < spec_prop_bytes(self@).len() ==> r == Err::<u32, CodecError>(
                CodecError::EndOfBuffer,
            ) && final(writer).buffer@ == old(writer).buffer@,
    {
        let total = self.encoded_length();
        if writer.capacity - writer.position() < total as usize {
            return Err(CodecError::EndOfBuffer);
        }
        proof {
            lemma_vbi_bytes_width(self.identifier as nat);
        }
        let r1 = writer.write_variable_byte_int(self.identifier);
        let r2 = self.write_value(writer);
        proof {
            assert(writer.buffer@ =~= old(writer).buffer@ + spec_prop_bytes(self@));
        }
        Ok(total)
    }

    fn read_lp(reader: &mut BuffReader) -> (r: Result<Vec<u8>, CodecError>)
        requires
            old(reader).wf(),
        ensures
            final(reader).wf(),
            final(reader).buffer@ == old(reader).buffer@,
            (match spec_lp_parse(old(reader).remaining()) {
                Ok((d, n)) => (r matches Ok(v) && v@ == d) && final(reader).position == old(
                    reader,
                ).position + n,
                Err(e) => r == Err::<Vec<u8>, CodecError>(e) && final(reader).position >= old(
                    reader,
                ).position,
            }),
    {
        let l = match reader.read_u16() {
            Ok(l) => l,
            Err(e) => {
                return Err(e);
            },
        };
        proof {
            assert(reader.remaining() =~= old(reader).remaining().skip(2));
        }
        match reader.read_bytes(l as usize) {
            Ok(v) => {
                proof {
                    assert(old(reader).remaining().skip(2).take(l as int) =~= old(
                        reader,
                    ).remaining().subrange(2, 2 + l as int));
                }
                Ok(v)
            },
            Err(e) => Err(e),
        }
    }

    /// Read one property from `reader`: the identifier as a variable-byte
    /// integer, the shape the fixed lookup gives it, then a payload of that
    /// shape.
    pub fn decode_one(reader: &mut BuffReader) -> (r: Result<Property, CodecError>)
        requires
            old(reader).wf(),
        ensures
            final(reader).wf(),
            final(reader).buffer@ == old(reader).buffer@,
            (match spec_prop_parse(old(reader).remaining()) {
                Ok((p, n)) => (r matches Ok(q) && q@ == p) && final(reader).position == old(
                    reader,
                ).position + n,
                Err(e) => r == Err::<Property, CodecError>(e) && final(reader).position >= old(
                    reader,
                ).position,
            }),
    {
        let ghost s0 = old(reader).remaining();
        let id = match reader.read_variable_byte_int() {
            Ok(v) => v,
            Err(e) => {
                return Err(e);
            },
        };
        proof {
            lemma_vbi_parse_bounds(s0);
            assert(reader.remaining() =~= s0.skip((vbi_parse(s0)->Ok_0).1 as int));
        }
        let shape = match property_shape(id) {
            Some(s) => s,
            None => {
                return Err(CodecError::UnknownPropertyIdentifier);
            },
        };
        let ghost s1 = reader.remaining();
        let value = match shape {
            PropertyType::Byte => {
                match reader.read_u8() {
                    Ok(b) => PropertyValue::Byte(b),
                    Err(e) => {
                        return Err(e);
                    },
                }
            },
            PropertyType::TwoByteInt => {
                match reader.read_u16() {
                    Ok(x) => PropertyValue::TwoByteInt(x),
                    Err(e) => {
                        return Err(e);
                    },
                }
            },
            PropertyType::FourByteInt => {
                match reader.read_u32() {
                    Ok(x) => PropertyValue::FourByteInt(x),
                    Err(e) => {
                        return Err(e);
                    },
                }
            },
            PropertyType::VariableByteInt => {
                match reader.read_variable_byte_int() {
                    Ok(x) => PropertyValue::VariableByteInt(x),
                    Err(e) => {
                        return Err(e);
                    },
                }
            },
            PropertyType::Utf8String => {
                match Self::read_lp(reader) {
                    Ok(d) => PropertyValue::Utf8String(d),
                    Err(e) => {
                        return Err(e);
                    },
                }
            },
            PropertyType::StringPair => {
                let a = match Self::read_lp(reader) {
                    Ok(a) => a,
                    Err(e) => {
                        return Err(e);
                    },
                };
                proof {
                    assert(reader.remaining() =~= s1.skip((spec_lp_parse(s1)->Ok_0).1 as int));
                }
                let b = match Self::read_lp(reader) {
                    Ok(b) => b,
                    Err(e) => {
                        return Err(e);
                    },
                };
                PropertyValue::StringPair(a, b)
            },
            PropertyType::BinaryData => {
                match Self::read_lp(reader) {
                    Ok(d) => PropertyValue::BinaryData(d),
                    Err(e) => {
                        return Err(e);
                    },
                }
            },
        };
        Ok(Property { identifier: id, value })
    }
}

/// The wire bytes of a property sequence, in order.
pub open spec fn spec_props_bytes(ps: Seq<PropertyModel>) -> Seq<u8>
    decreases ps.len(),
{
    if ps.len() == 0 {
        Seq::empty()
    } else {
        spec_prop_bytes(ps[0]) + spec_props_bytes(ps.skip(1))
    }
}

/// Decode properties until exactly `plen` declared bytes are consumed, with
/// `room` slots left in the bounded sequence. A property running past the
/// declared length is a `PropertyLengthMismatch`; one past the last slot is
/// a `CapacityExceeded`.
pub open spec fn spec_props_parse(s: Seq<u8>, plen: nat, room: nat) -> Result<
    Seq<PropertyModel>,
    CodecError,
>
    decreases room,
{
    if plen == 0 {
        Ok(Seq::empty())
    } else {
        match spec_prop_parse(s) {
            Err(e) => Err(e),
            Ok((p, n)) => if n > plen {
                Err(CodecError::PropertyLengthMismatch)
            } else if room == 0 {
                Err(CodecError::CapacityExceeded)
            } else {
                match spec_props_parse(s.skip(n as int), (plen - n) as nat, (room - 1) as nat) {
                    Ok(ps) => Ok(seq![p] + ps),
                    Err(e) => Err(e),
                }
            },
        }
    }
}

/// Block bytes distribute over concatenation of property sequences.
pub proof fn lemma_props_bytes_concat(a: Seq<PropertyModel>, b: Seq<PropertyModel>)
    ensures
        spec_props_bytes(a + b) == spec_props_bytes(a) + spec_props_bytes(b),
    decreases a.len(),
{
    if a.len() == 0 {
        assert(a + b =~= b);
        assert(spec_props_bytes(a) + spec_props_bytes(b) =~= spec_props_bytes(b));
    } else {
        assert((a + b).skip(1) =~= a.skip(1) + b);
        lemma_props_bytes_concat(a.skip(1), b);
        assert(spec_props_bytes(a + b) =~= spec_props_bytes(a) + spec_props_bytes(b));
    }
}

/// Appending one property appends exactly its own wire bytes.
pub proof fn lemma_props_bytes_snoc(ps: Seq<PropertyModel>, p: PropertyModel)
    ensures
        spec_props_bytes(ps.push(p)) == spec_props_bytes(ps) + spec_prop_bytes(p),
{
    assert(ps.push(p) =~= ps + seq![p]);
    lemma_props_bytes_concat(ps, seq![p]);
    assert(seq![p].skip(1) =~= Seq::<PropertyModel>::empty());
    assert(seq![p][0] == p);
    assert(spec_props_bytes(seq![p]) == spec_prop_bytes(p) + spec_props_bytes(
        Seq::<PropertyModel>::empty(),
    ));
    assert(spec_prop_bytes(p) + Seq::<u8>::empty() =~= spec_prop_bytes(p));
}

/// A block of `n` well-formed properties takes at most `n * 131075` bytes.
pub proof fn lemma_props_bytes_len_bound(ps: Seq<PropertyModel>)
    requires
        forall|i: int| 0 <= i < ps.len() ==> prop_wf(#[trigger] ps[i]),
    ensures
        spec_props_bytes(ps).len() <= ps.len() * 131075,
    decreases ps.len(),
{
    if ps.len() > 0 {
        lemma_prop_bytes_len_bound(ps[0]);
        assert(forall|i: int| 0 <= i < ps.skip(1).len() ==> prop_wf(#[trigger] ps.skip(1)[i]));
        lemma_props_bytes_len_bound(ps.skip(1));
    }
}

/// Parsed property sequences are well-formed and fit the room they were
/// given.
pub proof fn lemma_props_parse_wf(s: Seq<u8>, plen: nat, room: nat)
    ensures
        spec_props_parse(s, plen, room) matches Ok(ps) ==> ps.len() <= room && (forall|i: int|
            0 <= i < ps.len() ==> prop_wf(#[trigger] ps[i])),
    decreases room,
{
    if plen != 0 {
        lemma_prop_parse_ok(s);
        match spec_prop_parse(s) {
            Ok((p, n)) => {
                if n <= plen && room > 0 {
                    lemma_props_parse_wf(s.skip(n as int), (plen - n) as nat, (room - 1) as nat);
                }
            },
            Err(_) => {},
        }
    }
}

/// Law: a property block round-trips against its own declared length —
/// decoding the block's bytes with the declared length equal to their exact
/// count consumes exactly those bytes and yields the same sequence.
pub proof fn lemma_props_round_trip(ps: Seq<PropertyModel>, rest: Seq<u8>, room: nat)
    requires
        forall|i: int| 0 <= i < ps.len() ==> prop_wf(#[trigger] ps[i]),
        ps.len() <= room,
    ensures
        spec_props_parse(spec_props_bytes(ps) + rest, spec_props_bytes(ps).len() as nat, room)
            == Ok::<Seq<PropertyModel>, CodecError>(ps),
    decreases ps.len(),
{
    if ps.len() == 0 {
        assert(ps =~= Seq::<PropertyModel>::empty());
    } else {
        let p0 = ps[0];
        let tail = ps.skip(1);
        let pb0 = spec_prop_bytes(p0);
        let tb = spec_props_bytes(tail);
        assert(spec_props_bytes(ps) + rest =~= pb0 + (tb + rest));
        lemma_prop_round_trip(p0, tb + rest);
        assert(pb0.len() >= 1);
        assert((pb0 + (tb + rest)).skip(pb0.len() as int) =~= tb + rest);
        assert(forall|i: int| 0 <= i < tail.len() ==> prop_wf(#[trigger] tail[i]));
        lemma_props_round_trip(tail, rest, (room - 1) as nat);
        assert(seq![p0] + tail =~= ps);
    }
}

} // verus!
