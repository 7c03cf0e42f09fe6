//! Remote procedure calls: how arguments and results are written, what a
//! device says about its methods, and how a list or a dump is fetched page by
//! page.

use crate::payload::{Payload, PayloadView, RpcErrorCode};
use crate::text::{
    all_digits, chars_of, decimal, digits_value, option_text, parse_digits, push_decimal,
    push_str, same_text, string_of,
};
use crate::wire::{
    from_le16, from_le32, from_le64, le16, le32, le64, lemma_le16_round_trip,
    lemma_le32_round_trip, lemma_le64_round_trip, lemma_signed_round_trip, push_le16, read_le16,
    read_le32, read_le64, read_text, signed_of, text_of_bytes, unsigned_of,
};
use vstd::prelude::*;
use vstd::utf8::encode_utf8;

verus! {

/// The type of an RPC argument or result, as named on the command line.
#[derive(Clone, Copy, Debug, PartialEq, Eq, Structural)]
pub enum RpcType {
    UInt8,
    UInt16,
    UInt32,
    UInt64,
    Int8,
    Int16,
    Int32,
    Int64,
    Float32,
    Float64,
    Text,
}

/// Why a value could not be written or read.
#[derive(Clone, Copy, Debug, PartialEq, Eq, Structural)]
pub enum RpcValueError {
    /// The type name is none of `u8`, `u16`, `u32`, `u64`, `i8`, `i16`, `i32`,
    /// `i64`, `f32`, `f64`, `string`.
    InvalidType,
    /// The text is no number of the type.
    InvalidValue,
    /// The reply is shorter than a value of the type.
    TooShort,
}

/// The type that a name stands for.
pub open spec fn type_named(name: Seq<char>) -> Option<RpcType> {
    if name == "u8"@ {
        Some(RpcType::UInt8)
    } else if name == "u16"@ {
        Some(RpcType::UInt16)
    } else if name == "u32"@ {
        Some(RpcType::UInt32)
    } else if name == "u64"@ {
        Some(RpcType::UInt64)
    } else if name == "i8"@ {
        Some(RpcType::Int8)
    } else if name == "i16"@ {
        Some(RpcType::Int16)
    } else if name == "i32"@ {
        Some(RpcType::Int32)
    } else if name == "i64"@ {
        Some(RpcType::Int64)
    } else if name == "f32"@ {
        Some(RpcType::Float32)
    } else if name == "f64"@ {
        Some(RpcType::Float64)
    } else if name == "string"@ {
        Some(RpcType::Text)
    } else {
        None
    }
}

/// The type that a name stands for.
pub fn rpc_type(name: &str) -> (r: Option<RpcType>)
    ensures
        r == type_named(name@),
{
    if same_text(name, "u8") {
        Some(RpcType::UInt8)
    } else if same_text(name, "u16") {
        Some(RpcType::UInt16)
    } else if same_text(name, "u32") {
        Some(RpcType::UInt32)
    } else if same_text(name, "u64") {
        Some(RpcType::UInt64)
    } else if same_text(name, "i8") {
        Some(RpcType::Int8)
    } else if same_text(name, "i16") {
        Some(RpcType::Int16)
    } else if same_text(name, "i32") {
        Some(RpcType::Int32)
    } else if same_text(name, "i64") {
        Some(RpcType::Int64)
    } else if same_text(name, "f32") {
        Some(RpcType::Float32)
    } else if same_text(name, "f64") {
        Some(RpcType::Float64)
    } else if same_text(name, "string") {
        Some(RpcType::Text)
    } else {
        None
    }
}

/// The whole number that a text denotes, if it denotes one between `min` and
/// `max`: digits, after a plus sign if any, or after a minus sign where
/// negative numbers are asked for.
pub open spec fn number_text(s: Seq<char>, min: int, max: int) -> Option<int> {
    let negative = s.len() > 0 && s[0] == '-' && min < 0;
    let digits = if s.len() > 0 && (s[0] == '+' || negative) {
        s.skip(1)
    } else {
        s
    };
    let value = if negative {
        -(digits_value(digits) as int)
    } else {
        digits_value(digits) as int
    };
    if digits.len() > 0 && all_digits(digits) && min <= value <= max {
        Some(value)
    } else {
        None
    }
}

/// The whole number that a text denotes, if it denotes one between `min` and
/// `max`.
pub fn parse_number(text: &str, min: i64, max: u64) -> (r: Option<i128>)
    ensures
        match number_text(text@, min as int, max as int) {
            Some(v) => r == Some(v as i128),
            None => r is None,
        },
{
    let cs = chars_of(text);
    let negative = cs.len() > 0 && cs[0] == '-' && min < 0;
    let from: usize = if cs.len() > 0 && (cs[0] == '+' || negative) {
        1
    } else {
        0
    };
    proof {
        assert(cs@.subrange(from as int, cs.len() as int) =~= if from == 1 {
            text@.skip(1)
        } else {
            text@
        });
    }
    let limit: u64 = if negative {
        if min == i64::MIN {
            9223372036854775808
        } else {
            (-min) as u64
        }
    } else {
        max
    };
    match parse_digits(&cs, from, cs.len(), limit) {
        Some(v) => {
            if negative {
                Some(-(v as i128))
            } else if min > 0 && v < min as u64 {
                None
            } else {
                Some(v as i128)
            }
        },
        None => None,
    }
}

/// How an argument is to be sent.
#[derive(Debug, PartialEq, Eq)]
pub enum ArgBytes {
    /// These bytes.
    Bytes(Vec<u8>),
    /// The text read as a single-precision number, in four bytes.
    Single,
    /// The text read as a double-precision number, in eight bytes.
    Double,
}

/// What an `ArgBytes` holds.
pub enum ArgBytesView {
    Bytes(Seq<u8>),
    Single,
    Double,
}

impl View for ArgBytes {
    type V = ArgBytesView;

    open spec fn view(&self) -> ArgBytesView {
        match self {
            ArgBytes::Bytes(b) => ArgBytesView::Bytes(b@),
            ArgBytes::Single => ArgBytesView::Single,
            ArgBytes::Double => ArgBytesView::Double,
        }
    }
}

/// The number `v` in `width` bytes, low byte first, negative numbers in
/// two's complement.
pub open spec fn number_bytes(v: int, width: nat) -> Seq<u8> {
    unsigned_bytes(
        (if v < 0 {
            v + modulus(width)
        } else {
            v
        }) as nat,
        width,
    )
}

/// The count of numbers that `width` bytes can tell apart, for one, two, four
/// and eight bytes.
pub open spec fn modulus(width: nat) -> int {
    if width == 1 {
        256
    } else if width == 2 {
        65536
    } else if width == 4 {
        4294967296
    } else {
        18446744073709551616
    }
}

/// The low `width` bytes of `u`, low byte first.
pub open spec fn unsigned_bytes(u: nat, width: nat) -> Seq<u8>
    decreases width,
{
    if width == 0 {
        Seq::empty()
    } else {
        seq![(u % 256) as u8] + unsigned_bytes(u / 256, (width - 1) as nat)
    }
}

/// How an argument of the named type is sent. A whole number must lie within
/// its type and goes in as many bytes as the type has, low byte first; a
/// string goes as its bytes; a floating-point number is left to the caller.
pub open spec fn arg_encoding(kind_name: Seq<char>, text: Seq<char>) -> Result<
    ArgBytesView,
    RpcValueError,
> {
    match type_named(kind_name) {
        None => Err(RpcValueError::InvalidType),
        Some(RpcType::Text) => Ok(ArgBytesView::Bytes(encode_utf8(text))),
        Some(RpcType::Float32) => Ok(ArgBytesView::Single),
        Some(RpcType::Float64) => Ok(ArgBytesView::Double),
        Some(t) => match number_text(text, arg_min(t), arg_max(t)) {
            Some(v) => Ok(ArgBytesView::Bytes(number_bytes(v, arg_width(t)))),
            None => Err(RpcValueError::InvalidValue),
        },
    }
}

/// The least number that an argument of a whole-number type can be.
pub open spec fn arg_min(t: RpcType) -> int {
    match t {
        RpcType::Int8 => -128,
        RpcType::Int16 => -32768,
        RpcType::Int32 => -2147483648,
        RpcType::Int64 => -9223372036854775808,
        _ => 0,
    }
}

/// The largest number that an argument of a whole-number type can be.
pub open spec fn arg_max(t: RpcType) -> int {
    match t {
        RpcType::UInt8 => 255,
        RpcType::UInt16 => 65535,
        RpcType::UInt32 => 4294967295,
        RpcType::UInt64 => 18446744073709551615,
        RpcType::Int8 => 127,
        RpcType::Int16 => 32767,
        RpcType::Int32 => 2147483647,
        RpcType::Int64 => 9223372036854775807,
        _ => 0,
    }
}

/// Bytes in which an argument of a whole-number type is sent.
pub open spec fn arg_width(t: RpcType) -> nat {
    match t {
        RpcType::UInt8 | RpcType::Int8 => 1,
        RpcType::UInt16 | RpcType::Int16 => 2,
        RpcType::UInt32 | RpcType::Int32 => 4,
        _ => 8,
    }
}

/// Appends the number `v` in `width` bytes, low byte first.
fn push_number(out: &mut Vec<u8>, v: i128, width: usize)
    requires
        width == 1 || width == 2 || width == 4 || width == 8,
        -modulus(width as nat) <= v < modulus(width as nat),
    ensures
        final(out)@ == old(out)@ + number_bytes(v as int, width as nat),
{
    let ghost before = out@;
    let wrap: i128 = if width == 1 {
        256
    } else if width == 2 {
        65536
    } else if width == 4 {
        4294967296
    } else {
        18446744073709551616
    };
    let start: u64 = if v < 0 {
        (v + wrap) as u64
    } else {
        v as u64
    };
    let mut rest: u64 = start;
    let mut i: usize = 0;
    proof {
        assert(before + unsigned_bytes(start as nat, width as nat) =~= before + unsigned_bytes(
            rest as nat,
            (width - i) as nat,
        ));
    }
    while i < width
        invariant
            i <= width <= 8,
            out@ + unsigned_bytes(rest as nat, (width - i) as nat) == before + unsigned_bytes(
                start as nat,
                width as nat,
            ),
        decreases width - i,
    {
        let ghost prev = out@;
        let low = rest % 256;
        out.push(low as u8);
        proof {
            assert(prev + (seq![low as u8] + unsigned_bytes(
                (rest / 256) as nat,
                (width - i - 1) as nat,
            )) =~= prev.push(low as u8) + unsigned_bytes(
                (rest / 256) as nat,
                (width - i - 1) as nat,
            ));
        }
        rest = rest / 256;
        i += 1;
    }
    proof {
        assert(out@ + unsigned_bytes(rest as nat, 0) =~= out@);
    }
}

/// How an argument of the named type is sent.
pub fn encode_arg(kind_name: &str, text: &str) -> (r: Result<ArgBytes, RpcValueError>)
    ensures
        match arg_encoding(kind_name@, text@) {
            Ok(bytes) => r is Ok && r->Ok_0@ == bytes,
            Err(e) => r == Err::<ArgBytes, _>(e),
        },
{
    let t = match rpc_type(kind_name) {
        Some(t) => t,
        None => {
            return Err(RpcValueError::InvalidType);
        },
    };
    let (min, max, width): (i64, u64, usize) = match t {
        RpcType::Text => {
            let mut out: Vec<u8> = Vec::new();
            crate::wire::push_text_bytes(&mut out, text);
            proof {
                assert(out@ =~= encode_utf8(text@));
            }
            return Ok(ArgBytes::Bytes(out));
        },
        RpcType::Float32 => {
            return Ok(ArgBytes::Single);
        },
        RpcType::Float64 => {
            return Ok(ArgBytes::Double);
        },
        RpcType::UInt8 => (0, 255, 1),
        RpcType::UInt16 => (0, 65535, 2),
        RpcType::UInt32 => (0, 4294967295, 4),
        RpcType::UInt64 => (0, 18446744073709551615, 8),
        RpcType::Int8 => (-128, 127, 1),
        RpcType::Int16 => (-32768, 32767, 2),
        RpcType::Int32 => (-2147483648, 2147483647, 4),
        RpcType::Int64 => (-9223372036854775808, 9223372036854775807, 8),
    };
    match parse_number(text, min, max) {
        Some(v) => {
            let mut out: Vec<u8> = Vec::new();
            push_number(&mut out, v, width);
            proof {
                assert(out@ =~= number_bytes(v as int, width as nat));
            }
            Ok(ArgBytes::Bytes(out))
        },
        None => Err(RpcValueError::InvalidValue),
    }
}

/// A result, ready to show.
#[derive(Debug, PartialEq, Eq)]
pub enum ReplyValue {
    /// This text.
    Text(String),
    /// The single-precision number with these bits.
    Single(u32),
    /// The double-precision number with these bits.
    Double(u64),
}

/// What a `ReplyValue` holds.
pub enum ReplyValueView {
    Text(Seq<char>),
    Single(u32),
    Double(u64),
}

impl View for ReplyValue {
    type V = ReplyValueView;

    open spec fn view(&self) -> ReplyValueView {
        match self {
            ReplyValue::Text(t) => ReplyValueView::Text(t@),
            ReplyValue::Single(b) => ReplyValueView::Single(*b),
            ReplyValue::Double(b) => ReplyValueView::Double(*b),
        }
    }
}

/// Decimal notation of a whole number, with a minus sign if it is negative.
pub open spec fn signed_decimal(v: int) -> Seq<char> {
    if v < 0 {
        seq!['-'] + decimal((-v) as nat)
    } else {
        decimal(v as nat)
    }
}

/// Bytes as a list of decimal numbers in square brackets.
pub open spec fn bytes_list(b: Seq<u8>) -> Seq<char> {
    seq!['['] + bytes_joined(b) + seq![']']
}

/// Bytes as decimal numbers separated by a comma and a space.
pub open spec fn bytes_joined(b: Seq<u8>) -> Seq<char>
    decreases b.len(),
{
    if b.len() == 0 {
        Seq::empty()
    } else if b.len() == 1 {
        decimal(b[0] as nat)
    } else {
        bytes_joined(b.drop_last()) + seq![',', ' '] + decimal(b.last() as nat)
    }
}

/// How a string result is shown: the text that the bytes spell in UTF-8,
/// or nothing where they spell none, in double quotes; then the bytes as a
/// list.
pub open spec fn text_reply(b: Seq<u8>) -> Seq<char> {
    seq!['"'] + match text_of_bytes(b) {
        Some(text) => text,
        None => Seq::empty(),
    } + seq!['"', ' '] + bytes_list(b)
}

/// Bytes that a result of a type takes.
pub open spec fn reply_width(t: RpcType) -> nat {
    match t {
        RpcType::UInt8 | RpcType::Int8 => 1,
        RpcType::UInt16 | RpcType::Int16 => 2,
        RpcType::UInt32 | RpcType::Int32 | RpcType::Float32 => 4,
        RpcType::UInt64 | RpcType::Int64 | RpcType::Float64 => 8,
        RpcType::Text => 0,
    }
}

/// How a result of the named type is shown. A number is read from the first
/// bytes of the reply, as many as the type has; what follows them is passed
/// over.
pub open spec fn reply_decoding(kind_name: Seq<char>, b: Seq<u8>) -> Result<
    ReplyValueView,
    RpcValueError,
> {
    match type_named(kind_name) {
        None => Err(RpcValueError::InvalidType),
        Some(t) => if b.len() < reply_width(t) {
            Err(RpcValueError::TooShort)
        } else {
            Ok(
                match t {
                    RpcType::UInt8 => ReplyValueView::Text(decimal(b[0] as nat)),
                    RpcType::UInt16 => ReplyValueView::Text(
                        decimal(from_le16(b.subrange(0, 2)) as nat),
                    ),
                    RpcType::UInt32 => ReplyValueView::Text(
                        decimal(from_le32(b.subrange(0, 4)) as nat),
                    ),
                    RpcType::UInt64 => ReplyValueView::Text(
                        decimal(from_le64(b.subrange(0, 8)) as nat),
                    ),
                    RpcType::Int8 => ReplyValueView::Text(
                        signed_decimal(signed_of(b[0] as int, 128)),
                    ),
                    RpcType::Int16 => ReplyValueView::Text(
                        signed_decimal(signed_of(from_le16(b.subrange(0, 2)) as int, 32768)),
                    ),
                    RpcType::Int32 => ReplyValueView::Text(
                        signed_decimal(signed_of(from_le32(b.subrange(0, 4)) as int, 2147483648)),
                    ),
                    RpcType::Int64 => ReplyValueView::Text(
                        signed_decimal(
                            signed_of(from_le64(b.subrange(0, 8)) as int, 9223372036854775808),
                        ),
                    ),
                    RpcType::Float32 => ReplyValueView::Single(from_le32(b.subrange(0, 4))),
                    RpcType::Float64 => ReplyValueView::Double(from_le64(b.subrange(0, 8))),
                    RpcType::Text => ReplyValueView::Text(text_reply(b)),
                },
            )
        },
    }
}

/// The decimal notation of an unsigned number.
fn unsigned_text(v: u64) -> (r: String)
    ensures
        r@ == decimal(v as nat),
{
    let mut out: Vec<char> = Vec::new();
    push_decimal(&mut out, v);
    proof {
        assert(out@ =~= decimal(v as nat));
    }
    string_of(&out)
}

/// The decimal notation of the signed number that `v` stands for in two's
/// complement, `half` being the least number that stands for a negative one.
fn signed_text(v: u64, half: u64) -> (r: String)
    requires
        half >= 1,
        v < 2 * half,
        half <= 9223372036854775808,
    ensures
        r@ == signed_decimal(signed_of(v as int, half as int)),
{
    let mut out: Vec<char> = Vec::new();
    if v >= half {
        out.push('-');
        let magnitude: u64 = (half - (v - half)) as u64;
        push_decimal(&mut out, magnitude);
        proof {
            assert(magnitude == -signed_of(v as int, half as int));
            assert(out@ =~= seq!['-'] + decimal(magnitude as nat));
        }
    } else {
        push_decimal(&mut out, v);
        proof {
            assert(out@ =~= decimal(v as nat));
        }
    }
    string_of(&out)
}

/// Appends bytes as decimal numbers separated by a comma and a space.
fn push_bytes_joined(out: &mut Vec<char>, b: &Vec<u8>)
    ensures
        final(out)@ == old(out)@ + bytes_joined(b@),
{
    let ghost before = out@;
    let mut i: usize = 0;
    proof {
        assert(b@.take(0) =~= Seq::<u8>::empty());
        assert(before + bytes_joined(b@.take(0)) =~= before);
    }
    while i < b.len()
        invariant
            i <= b.len(),
            out@ == before + bytes_joined(b@.take(i as int)),
        decreases b.len() - i,
    {
        let ghost prev = bytes_joined(b@.take(i as int));
        proof {
            let next = b@.take(i + 1);
            assert(next.drop_last() =~= b@.take(i as int));
            assert(next.last() == b@[i as int]);
        }
        if i > 0 {
            out.push(',');
            out.push(' ');
        }
        push_decimal(out, b[i] as u64);
        proof {
            let d = decimal(b@[i as int] as nat);
            if i > 0 {
                assert(out@ =~= before + (prev + seq![',', ' '] + d));
            } else {
                assert(prev =~= Seq::<char>::empty());
                assert(out@ =~= before + d);
            }
        }
        i += 1;
    }
    proof {
        assert(b@.take(b.len() as int) =~= b@);
    }
}

/// How a result of the named type is shown.
pub fn decode_reply(kind_name: &str, reply: &Vec<u8>) -> (r: Result<ReplyValue, RpcValueError>)
    ensures
        match reply_decoding(kind_name@, reply@) {
            Ok(value) => r is Ok && r->Ok_0@ == value,
            Err(e) => r == Err::<ReplyValue, _>(e),
        },
{
    let t = match rpc_type(kind_name) {
        Some(t) => t,
        None => {
            return Err(RpcValueError::InvalidType);
        },
    };
    let width: usize = match t {
        RpcType::UInt8 | RpcType::Int8 => 1,
        RpcType::UInt16 | RpcType::Int16 => 2,
        RpcType::UInt32 | RpcType::Int32 | RpcType::Float32 => 4,
        RpcType::UInt64 | RpcType::Int64 | RpcType::Float64 => 8,
        RpcType::Text => 0,
    };
    if reply.len() < width {
        return Err(RpcValueError::TooShort);
    }
    Ok(
        match t {
            RpcType::UInt8 => ReplyValue::Text(unsigned_text(reply[0] as u64)),
            RpcType::UInt16 => ReplyValue::Text(unsigned_text(read_le16(reply, 0) as u64)),
            RpcType::UInt32 => ReplyValue::Text(unsigned_text(read_le32(reply, 0) as u64)),
            RpcType::UInt64 => ReplyValue::Text(unsigned_text(read_le64(reply, 0))),
            RpcType::Int8 => ReplyValue::Text(signed_text(reply[0] as u64, 128)),
            RpcType::Int16 => ReplyValue::Text(signed_text(read_le16(reply, 0) as u64, 32768)),
            RpcType::Int32 => ReplyValue::Text(
                signed_text(read_le32(reply, 0) as u64, 2147483648),
            ),
            RpcType::Int64 => {
                let v = read_le64(reply, 0);
                if v >= 9223372036854775808 {
                    let mut out: Vec<char> = Vec::new();
                    out.push('-');
                    let magnitude: u64 = 9223372036854775808 - (v - 9223372036854775808);
                    push_decimal(&mut out, magnitude);
                    proof {
                        assert(out@ =~= seq!['-'] + decimal(magnitude as nat));
                    }
                    ReplyValue::Text(string_of(&out))
                } else {
                    ReplyValue::Text(unsigned_text(v))
                }
            },
            RpcType::Float32 => ReplyValue::Single(read_le32(reply, 0)),
            RpcType::Float64 => ReplyValue::Double(read_le64(reply, 0)),
            RpcType::Text => {
                let mut out: Vec<char> = Vec::new();
                out.push('"');
                proof {
                    assert(reply@.subrange(0, reply.len() as int) =~= reply@);
                }
                match read_text(reply, 0, reply.len()) {
                    Some(text) => push_str(&mut out, text.as_str()),
                    None => {},
                }
                out.push('"');
                out.push(' ');
                out.push('[');
                push_bytes_joined(&mut out, reply);
                out.push(']');
                proof {
                    assert(out@ =~= text_reply(reply@));
                }
                ReplyValue::Text(string_of(&out))
            },
        },
    )
}

/// Where the type of an argument or result comes from.
#[derive(Debug, PartialEq, Eq)]
pub enum TypeChoice {
    /// The type with this name.
    Use(String),
    /// The device is asked, by `rpc.info`.
    Lookup,
    /// There is nothing to give a type to.
    Nothing,
}

/// What a `TypeChoice` holds.
pub enum TypeChoiceView {
    Use(Seq<char>),
    Lookup,
    Nothing,
}

impl View for TypeChoice {
    type V = TypeChoiceView;

    open spec fn view(&self) -> TypeChoiceView {
        match self {
            TypeChoice::Use(t) => TypeChoiceView::Use(t@),
            TypeChoice::Lookup => TypeChoiceView::Lookup,
            TypeChoice::Nothing => TypeChoiceView::Nothing,
        }
    }
}

/// Where the type of the argument comes from: the type that was given; else
/// the device, if there is an argument.
pub fn request_type_choice(given: Option<String>, has_arg: bool) -> (r: TypeChoice)
    ensures
        r@ == match option_text(given) {
            Some(t) => TypeChoiceView::Use(t),
            None => if has_arg {
                TypeChoiceView::Lookup
            } else {
                TypeChoiceView::Nothing
            },
        },
{
    match given {
        Some(t) => TypeChoice::Use(t),
        None => if has_arg {
            TypeChoice::Lookup
        } else {
            TypeChoice::Nothing
        },
    }
}

/// Where the type of the result comes from: the type that was given; else
/// the type of the argument; else the device.
pub fn reply_type_choice(given: Option<String>, request: Option<String>) -> (r: TypeChoice)
    ensures
        r@ == match option_text(given) {
            Some(t) => TypeChoiceView::Use(t),
            None => match option_text(request) {
                Some(t) => TypeChoiceView::Use(t),
                None => TypeChoiceView::Lookup,
            },
        },
{
    match given {
        Some(t) => TypeChoice::Use(t),
        None => match request {
            Some(t) => TypeChoice::Use(t),
            None => TypeChoice::Lookup,
        },
    }
}

/// The type to go by after the device was asked, and whether it is assumed:
/// where the device named none, a string is assumed.
pub fn looked_up_type(named: String) -> (r: (String, bool))
    ensures
        r.1 == (named@.len() == 0),
        r.0@ == if named@.len() == 0 {
            "string"@
        } else {
            named@
        },
{
    if named.as_str().is_empty() {
        (String::from_str("string"), true)
    } else {
        (named, false)
    }
}

/// The kind of value that a method takes and gives.
#[derive(Clone, Copy, Debug, PartialEq, Eq, Structural)]
pub enum RpcDataKind {
    Unknown,
    UInt,
    Int,
    Float,
    Text,
}

/// What a device says about one of its methods.
#[derive(Debug)]
pub struct RpcSpec {
    pub full_name: String,
    pub data_kind: RpcDataKind,
    /// Bytes of the value, for numbers.
    pub data_size: u8,
    pub readable: bool,
    pub writable: bool,
    pub persistent: bool,
}

/// What an `RpcSpec` holds.
pub struct RpcSpecView {
    pub full_name: Seq<char>,
    pub data_kind: RpcDataKind,
    pub data_size: u8,
    pub readable: bool,
    pub writable: bool,
    pub persistent: bool,
}

impl View for RpcSpec {
    type V = RpcSpecView;

    open spec fn view(&self) -> RpcSpecView {
        RpcSpecView {
            full_name: self.full_name@,
            data_kind: self.data_kind,
            data_size: self.data_size,
            readable: self.readable,
            writable: self.writable,
            persistent: self.persistent,
        }
    }
}

/// The kind of value that the low four bits of a meta word stand for.
pub open spec fn kind_of(code: int) -> RpcDataKind {
    if code == 1 {
        RpcDataKind::UInt
    } else if code == 2 {
        RpcDataKind::Int
    } else if code == 3 {
        RpcDataKind::Float
    } else if code == 4 {
        RpcDataKind::Text
    } else {
        RpcDataKind::Unknown
    }
}

/// What the meta word of a method says. Its low four bits hold the kind of
/// value, the next four the size of the value in bytes; then come one bit
/// each for readable, writable and persistent.
pub open spec fn rpc_spec_of(meta: u16, name: Seq<char>) -> RpcSpecView {
    RpcSpecView {
        full_name: name,
        data_kind: kind_of((meta % 16) as int),
        data_size: (meta / 16 % 16) as u8,
        readable: meta / 256 % 2 == 1,
        writable: meta / 512 % 2 == 1,
        persistent: meta / 1024 % 2 == 1,
    }
}

/// What the meta word of the method `name` says.
pub fn parse_rpc_spec(meta: u16, name: String) -> (r: RpcSpec)
    ensures
        r@ == rpc_spec_of(meta, name@),
{
    let code = meta % 16;
    RpcSpec {
        full_name: name,
        data_kind: if code == 1 {
            RpcDataKind::UInt
        } else if code == 2 {
            RpcDataKind::Int
        } else if code == 3 {
            RpcDataKind::Float
        } else if code == 4 {
            RpcDataKind::Text
        } else {
            RpcDataKind::Unknown
        },
        data_size: (meta / 16 % 16) as u8,
        readable: meta / 256 % 2 == 1,
        writable: meta / 512 % 2 == 1,
        persistent: meta / 1024 % 2 == 1,
    }
}

impl RpcSpecView {
    /// The name of the type of the method's value, or nothing where the
    /// meta word names no type that a value can be written in.
    pub open spec fn type_text(self) -> Seq<char> {
        match self.data_kind {
            RpcDataKind::UInt => if self.data_size == 1 {
                "u8"@
            } else if self.data_size == 2 {
                "u16"@
            } else if self.data_size == 4 {
                "u32"@
            } else if self.data_size == 8 {
                "u64"@
            } else {
                Seq::empty()
            },
            RpcDataKind::Int => if self.data_size == 1 {
                "i8"@
            } else if self.data_size == 2 {
                "i16"@
            } else if self.data_size == 4 {
                "i32"@
            } else if self.data_size == 8 {
                "i64"@
            } else {
                Seq::empty()
            },
            RpcDataKind::Float => if self.data_size == 4 {
                "f32"@
            } else if self.data_size == 8 {
                "f64"@
            } else {
                Seq::empty()
            },
            RpcDataKind::Text => "string"@,
            RpcDataKind::Unknown => Seq::empty(),
        }
    }

    /// The permissions of the method in three characters: `R`, `W` and `P`
    /// where it is readable, writable and persistent, a dash where it is not.
    pub open spec fn perm_text(self) -> Seq<char> {
        seq![
            if self.readable {
                'R'
            } else {
                '-'
            },
            if self.writable {
                'W'
            } else {
                '-'
            },
            if self.persistent {
                'P'
            } else {
                '-'
            },
        ]
    }

    /// The line that lists the method: permissions, name, and the type in
    /// round brackets.
    pub open spec fn listing(self) -> Seq<char> {
        self.perm_text() + seq![' '] + self.full_name + seq!['('] + self.type_text() + seq![')']
    }
}

impl RpcSpec {
    /// The name of the type of the method's value.
    pub fn type_str(&self) -> (r: String)
        ensures
            r@ == self@.type_text(),
    {
        let name = match self.data_kind {
            RpcDataKind::UInt => if self.data_size == 1 {
                "u8"
            } else if self.data_size == 2 {
                "u16"
            } else if self.data_size == 4 {
                "u32"
            } else if self.data_size == 8 {
                "u64"
            } else {
                ""
            },
            RpcDataKind::Int => if self.data_size == 1 {
                "i8"
            } else if self.data_size == 2 {
                "i16"
            } else if self.data_size == 4 {
                "i32"
            } else if self.data_size == 8 {
                "i64"
            } else {
                ""
            },
            RpcDataKind::Float => if self.data_size == 4 {
                "f32"
            } else if self.data_size == 8 {
                "f64"
            } else {
                ""
            },
            RpcDataKind::Text => "string",
            RpcDataKind::Unknown => "",
        };
        proof {
            reveal_strlit("");
            assert(""@ =~= Seq::<char>::empty());
        }
        String::from_str(name)
    }

    /// The permissions of the method in three characters.
    pub fn perm_str(&self) -> (r: String)
        ensures
            r@ == self@.perm_text(),
    {
        let mut out: Vec<char> = Vec::new();
        out.push(
            if self.readable {
                'R'
            } else {
                '-'
            },
        );
        out.push(
            if self.writable {
                'W'
            } else {
                '-'
            },
        );
        out.push(
            if self.persistent {
                'P'
            } else {
                '-'
            },
        );
        proof {
            assert(out@ =~= self@.perm_text());
        }
        string_of(&out)
    }

    /// The line that lists the method.
    pub fn describe(&self) -> (r: String)
        ensures
            r@ == self@.listing(),
    {
        let mut out: Vec<char> = Vec::new();
        push_str(&mut out, self.perm_str().as_str());
        out.push(' ');
        push_str(&mut out, self.full_name.as_str());
        out.push('(');
        push_str(&mut out, self.type_str().as_str());
        out.push(')');
        proof {
            assert(out@ =~= self@.listing());
        }
        string_of(&out)
    }
}

/// The type that the device names for a method, given what `rpc.info`
/// answered for it, if it answered: nothing where it did not.
pub fn type_from_info(meta: Option<u16>, name: &str) -> (r: String)
    ensures
        r@ == match meta {
            Some(m) => rpc_spec_of(m, name@).type_text(),
            None => Seq::empty(),
        },
{
    match meta {
        Some(m) => parse_rpc_spec(m, String::from_str(name)).type_str(),
        None => {
            proof {
                reveal_strlit("");
                assert(""@ =~= Seq::<char>::empty());
            }
            String::from_str("")
        },
    }
}

/// The method that a dump reads from: the named one, or its `.block` after
/// a capture.
pub fn dump_rpc_name(rpc_name: &str, is_capture: bool) -> (r: String)
    ensures
        r@ == if is_capture {
            rpc_name@ + ".block"@
        } else {
            rpc_name@
        },
{
    let mut out = String::from_str(rpc_name);
    if is_capture {
        out.append(".block");
    }
    out
}

/// The method that triggers a capture for the dump of `rpc_name`.
pub fn trigger_rpc_name(rpc_name: &str) -> (r: String)
    ensures
        r@ == rpc_name@ + ".trigger"@,
{
    let mut out = String::from_str(rpc_name);
    out.append(".trigger");
    out
}

/// The most pages that a list or dump can have: their numbers are 16-bit.
pub const MAX_PAGES: usize = 65536;

/// Why fetching pages stopped short.
#[derive(Clone, Copy, Debug, PartialEq, Eq, Structural)]
pub enum PagerError {
    /// The device refused a page for another reason than that there is none.
    Failed,
    /// A page arrived after the last one.
    Finished,
}

/// How far a list or dump has been fetched.
pub struct PagerView {
    /// Number of the next page to ask for.
    pub next: nat,
    /// The pages fetched so far.
    pub pages: Seq<Seq<u8>>,
    /// Whether the device said that there are no more pages.
    pub finished: bool,
}

impl PagerView {
    /// Nothing fetched yet.
    pub open spec fn fresh() -> PagerView {
        PagerView { next: 0, pages: Seq::empty(), finished: false }
    }

    /// Whether there is nothing more to ask for.
    pub open spec fn complete(self) -> bool {
        self.finished || self.next >= MAX_PAGES
    }

    /// The argument of the next request: the number of the page in two bytes.
    pub open spec fn request(self) -> Option<Seq<u8>> {
        if self.complete() {
            None
        } else {
            Some(le16(self.next as u16))
        }
    }

    /// The state after a page arrived.
    pub open spec fn after_page(self, page: Seq<u8>) -> Result<PagerView, PagerError> {
        if self.complete() {
            Err(PagerError::Finished)
        } else {
            Ok(PagerView { next: self.next + 1, pages: self.pages.push(page), ..self })
        }
    }

    /// The state after the device refused a page: with invalid arguments it
    /// says that there are no more pages; any other refusal is a failure.
    pub open spec fn after_refusal(self, error: RpcErrorCode) -> Result<PagerView, PagerError> {
        if error == RpcErrorCode::InvalidArgs {
            Ok(PagerView { finished: true, ..self })
        } else {
            Err(PagerError::Failed)
        }
    }
}

/// What a vector of pages holds.
pub open spec fn pages_view(pages: Seq<Vec<u8>>) -> Seq<Seq<u8>> {
    pages.map_values(|p: Vec<u8>| p@)
}

/// Fetches a list or dump page by page: page 0, page 1 and so on until the
/// device refuses a page with invalid arguments.
#[derive(Debug)]
pub struct Pager {
    next: usize,
    pages: Vec<Vec<u8>>,
    finished: bool,
}

impl View for Pager {
    type V = PagerView;

    closed spec fn view(&self) -> PagerView {
        PagerView {
            next: self.next as nat,
            pages: pages_view(self.pages@),
            finished: self.finished,
        }
    }
}

impl Pager {
    /// A pager that has fetched nothing.
    pub fn new() -> (r: Pager)
        ensures
            r@ == PagerView::fresh(),
    {
        let r = Pager { next: 0, pages: Vec::new(), finished: false };
        proof {
            assert(pages_view(r.pages@) =~= Seq::empty());
        }
        r
    }

    /// The argument of the next request, if there is anything to ask for.
    pub fn request(&self) -> (r: Option<Vec<u8>>)
        ensures
            match self@.request() {
                Some(arg) => r is Some && r->Some_0@ == arg,
                None => r is None,
            },
    {
        if self.finished || self.next >= MAX_PAGES {
            return None;
        }
        let mut arg: Vec<u8> = Vec::new();
        push_le16(&mut arg, self.next as u16);
        proof {
            assert(arg@ =~= le16(self.next as u16));
        }
        Some(arg)
    }

    /// Takes in a page.
    pub fn on_reply(&mut self, page: Vec<u8>) -> (r: Result<(), PagerError>)
        ensures
            match old(self)@.after_page(page@) {
                Ok(st) => r is Ok && final(self)@ == st,
                Err(e) => r == Err::<(), _>(e) && final(self)@ == old(self)@,
            },
    {
        if self.finished || self.next >= MAX_PAGES {
            return Err(PagerError::Finished);
        }
        let ghost pages = pages_view(self.pages@);
        self.pages.push(page);
        self.next = self.next + 1;
        proof {
            assert(pages_view(self.pages@) =~= pages.push(page@));
        }
        Ok(())
    }

    /// Takes note that the device refused a page.
    pub fn on_error(&mut self, error: RpcErrorCode) -> (r: Result<(), PagerError>)
        ensures
            match old(self)@.after_refusal(error) {
                Ok(st) => r is Ok && final(self)@ == st,
                Err(e) => r == Err::<(), _>(e) && final(self)@ == old(self)@,
            },
    {
        match error {
            RpcErrorCode::InvalidArgs => {
                self.finished = true;
                Ok(())
            },
            _ => Err(PagerError::Failed),
        }
    }

    /// The pages fetched.
    pub fn into_pages(self) -> (r: Vec<Vec<u8>>)
        ensures
            pages_view(r@) == self@.pages,
    {
        self.pages
    }
}

/// Pages one after the other.
pub open spec fn pages_joined(pages: Seq<Seq<u8>>) -> Seq<u8>
    decreases pages.len(),
{
    if pages.len() == 0 {
        Seq::empty()
    } else {
        pages_joined(pages.drop_last()) + pages.last()
    }
}

/// Pages one after the other: what a dump amounts to.
pub fn join_pages(pages: &Vec<Vec<u8>>) -> (r: Vec<u8>)
    ensures
        r@ == pages_joined(pages_view(pages@)),
{
    let ghost all = pages_view(pages@);
    let mut out: Vec<u8> = Vec::new();
    let mut i: usize = 0;
    proof {
        assert(all.take(0) =~= Seq::<Seq<u8>>::empty());
    }
    while i < pages.len()
        invariant
            i <= pages.len(),
            all == pages_view(pages@),
            out@ == pages_joined(all.take(i as int)),
        decreases pages.len() - i,
    {
        proof {
            let next = all.take(i + 1);
            assert(next.drop_last() =~= all.take(i as int));
            assert(next.last() == pages@[i as int]@);
        }
        crate::wire::push_bytes(&mut out, &pages[i], 0, pages[i].len());
        proof {
            assert(pages@[i as int]@.subrange(0, pages@[i as int]@.len() as int)
                =~= pages@[i as int]@);
        }
        i += 1;
    }
    proof {
        assert(all.take(pages.len() as int) =~= all);
    }
    out
}

/// The entry of a list that a page holds: the meta word of a method and its
/// name.
pub open spec fn list_entry_of(page: Seq<u8>) -> Option<(u16, Seq<char>)> {
    if page.len() < 2 {
        None
    } else {
        match text_of_bytes(page.skip(2)) {
            Some(name) => Some((from_le16(page.subrange(0, 2)), name)),
            None => None,
        }
    }
}

/// The entry of a list that a page holds, if it holds one.
pub fn list_entry(page: &Vec<u8>) -> (r: Option<(u16, String)>)
    ensures
        match list_entry_of(page@) {
            Some((meta, name)) => r is Some && r->Some_0.0 == meta && r->Some_0.1@ == name,
            None => r is None,
        },
{
    if page.len() < 2 {
        return None;
    }
    let meta = read_le16(page, 0);
    proof {
        assert(page@.subrange(2, page.len() as int) =~= page@.skip(2));
    }
    match read_text(page, 2, page.len()) {
        Some(name) => Some((meta, name)),
        None => None,
    }
}

/// What a received packet is to a caller that waits for the reply to request
/// `id`.
#[derive(Debug)]
pub enum ReplyMatch {
    /// The result of the call.
    Reply(Vec<u8>),
    /// The refusal of the call.
    Refused(RpcErrorCode, String),
    /// Something else: the reply to another call, or no reply at all.
    Unrelated,
}

/// What a `ReplyMatch` holds.
pub enum ReplyMatchView {
    Reply(Seq<u8>),
    Refused(RpcErrorCode, Seq<char>),
    Unrelated,
}

impl View for ReplyMatch {
    type V = ReplyMatchView;

    open spec fn view(&self) -> ReplyMatchView {
        match self {
            ReplyMatch::Reply(b) => ReplyMatchView::Reply(b@),
            ReplyMatch::Refused(code, message) => ReplyMatchView::Refused(*code, message@),
            ReplyMatch::Unrelated => ReplyMatchView::Unrelated,
        }
    }
}

/// What a payload is to a caller that waits for the reply to request `id`:
/// the reply or the error with that id is the caller's, nothing else is.
pub open spec fn reply_match(id: u16, payload: PayloadView) -> ReplyMatchView {
    match payload {
        PayloadView::RpcReply(r) => if r.id == id {
            ReplyMatchView::Reply(r.reply)
        } else {
            ReplyMatchView::Unrelated
        },
        PayloadView::RpcError(e) => if e.id == id {
            ReplyMatchView::Refused(e.error, e.message)
        } else {
            ReplyMatchView::Unrelated
        },
        _ => ReplyMatchView::Unrelated,
    }
}

/// What a payload is to a caller that waits for the reply to request `id`.
pub fn classify_reply(id: u16, payload: &Payload) -> (r: ReplyMatch)
    ensures
        r@ == reply_match(id, payload@),
{
    match payload {
        Payload::RpcReply(reply) => {
            if reply.id == id {
                ReplyMatch::Reply(reply.reply.clone())
            } else {
                ReplyMatch::Unrelated
            }
        },
        Payload::RpcError(error) => {
            if error.id == id {
                ReplyMatch::Refused(error.error, error.message.clone())
            } else {
                ReplyMatch::Unrelated
            }
        },
        _ => ReplyMatch::Unrelated,
    }
}

/// A value of one of the types that RPCs take and give. Numbers travel in as
/// many bytes as their type has, low byte first, negative numbers in two's
/// complement; a text travels as its UTF-8 bytes.
#[derive(Debug, PartialEq, Eq)]
pub enum RpcValue {
    UInt8(u8),
    UInt16(u16),
    UInt32(u32),
    UInt64(u64),
    Int8(i8),
    Int16(i16),
    Int32(i32),
    Int64(i64),
    /// The bits of a single-precision number.
    Float32(u32),
    /// The bits of a double-precision number.
    Float64(u64),
    Text(String),
}

/// What an `RpcValue` holds.
pub enum RpcValueView {
    UInt8(u8),
    UInt16(u16),
    UInt32(u32),
    UInt64(u64),
    Int8(i8),
    Int16(i16),
    Int32(i32),
    Int64(i64),
    Float32(u32),
    Float64(u64),
    Text(Seq<char>),
}

impl View for RpcValue {
    type V = RpcValueView;

    open spec fn view(&self) -> RpcValueView {
        match self {
            RpcValue::UInt8(v) => RpcValueView::UInt8(*v),
            RpcValue::UInt16(v) => RpcValueView::UInt16(*v),
            RpcValue::UInt32(v) => RpcValueView::UInt32(*v),
            RpcValue::UInt64(v) => RpcValueView::UInt64(*v),
            RpcValue::Int8(v) => RpcValueView::Int8(*v),
            RpcValue::Int16(v) => RpcValueView::Int16(*v),
            RpcValue::Int32(v) => RpcValueView::Int32(*v),
            RpcValue::Int64(v) => RpcValueView::Int64(*v),
            RpcValue::Float32(v) => RpcValueView::Float32(*v),
            RpcValue::Float64(v) => RpcValueView::Float64(*v),
            RpcValue::Text(t) => RpcValueView::Text(t@),
        }
    }
}

/// The type of a value.
pub open spec fn kind_of_value(v: RpcValueView) -> RpcType {
    match v {
        RpcValueView::UInt8(_) => RpcType::UInt8,
        RpcValueView::UInt16(_) => RpcType::UInt16,
        RpcValueView::UInt32(_) => RpcType::UInt32,
        RpcValueView::UInt64(_) => RpcType::UInt64,
        RpcValueView::Int8(_) => RpcType::Int8,
        RpcValueView::Int16(_) => RpcType::Int16,
        RpcValueView::Int32(_) => RpcType::Int32,
        RpcValueView::Int64(_) => RpcType::Int64,
        RpcValueView::Float32(_) => RpcType::Float32,
        RpcValueView::Float64(_) => RpcType::Float64,
        RpcValueView::Text(_) => RpcType::Text,
    }
}

/// The bytes in which a value travels.
pub open spec fn value_bytes(v: RpcValueView) -> Seq<u8> {
    match v {
        RpcValueView::UInt8(x) => seq![x],
        RpcValueView::UInt16(x) => le16(x),
        RpcValueView::UInt32(x) => le32(x),
        RpcValueView::UInt64(x) => le64(x),
        RpcValueView::Int8(x) => seq![unsigned_of(x as int, 128) as u8],
        RpcValueView::Int16(x) => le16(unsigned_of(x as int, 32768) as u16),
        RpcValueView::Int32(x) => le32(unsigned_of(x as int, 2147483648) as u32),
        RpcValueView::Int64(x) => le64(unsigned_of(x as int, 9223372036854775808) as u64),
        RpcValueView::Float32(x) => le32(x),
        RpcValueView::Float64(x) => le64(x),
        RpcValueView::Text(t) => encode_utf8(t),
    }
}

/// The value of a type that bytes are, if they are one: a number takes
/// exactly as many bytes as its type has, a text is valid UTF-8.
pub open spec fn value_of(t: RpcType, b: Seq<u8>) -> Option<RpcValueView> {
    match t {
        RpcType::Text => match text_of_bytes(b) {
            Some(text) => Some(RpcValueView::Text(text)),
            None => None,
        },
        _ => if b.len() != reply_width(t) {
            None
        } else {
            Some(
                match t {
                    RpcType::UInt8 => RpcValueView::UInt8(b[0]),
                    RpcType::UInt16 => RpcValueView::UInt16(from_le16(b)),
                    RpcType::UInt32 => RpcValueView::UInt32(from_le32(b)),
                    RpcType::UInt64 => RpcValueView::UInt64(from_le64(b)),
                    RpcType::Int8 => RpcValueView::Int8(signed_of(b[0] as int, 128) as i8),
                    RpcType::Int16 => RpcValueView::Int16(
                        signed_of(from_le16(b) as int, 32768) as i16,
                    ),
                    RpcType::Int32 => RpcValueView::Int32(
                        signed_of(from_le32(b) as int, 2147483648) as i32,
                    ),
                    RpcType::Int64 => RpcValueView::Int64(
                        signed_of(from_le64(b) as int, 9223372036854775808) as i64,
                    ),
                    RpcType::Float32 => RpcValueView::Float32(from_le32(b)),
                    _ => RpcValueView::Float64(from_le64(b)),
                },
            )
        },
    }
}

/// The number that a value of a whole-number type is.
pub open spec fn whole_number(v: RpcValueView) -> Option<int> {
    match v {
        RpcValueView::UInt8(x) => Some(x as int),
        RpcValueView::UInt16(x) => Some(x as int),
        RpcValueView::UInt32(x) => Some(x as int),
        RpcValueView::UInt64(x) => Some(x as int),
        RpcValueView::Int8(x) => Some(x as int),
        RpcValueView::Int16(x) => Some(x as int),
        RpcValueView::Int32(x) => Some(x as int),
        RpcValueView::Int64(x) => Some(x as int),
        _ => None,
    }
}

/// The low bytes of a number below 65536 are the two bytes of the number.
proof fn lemma_two_bytes(u: nat)
    requires
        u < 65536,
    ensures
        unsigned_bytes(u, 2) == le16(u as u16),
{
    reveal_with_fuel(unsigned_bytes, 3);
    assert(unsigned_bytes(u, 2) =~= le16(u as u16));
}

/// The low bytes of a number below 2^32 are the four bytes of the number.
proof fn lemma_four_bytes(u: nat)
    requires
        u < 4294967296,
    ensures
        unsigned_bytes(u, 4) == le32(u as u32),
{
    reveal_with_fuel(unsigned_bytes, 5);
    assert(u / 256 / 256 == u / 65536);
    assert(u / 256 / 256 / 256 == u / 16777216);
    assert(unsigned_bytes(u, 4) =~= le32(u as u32));
}

/// The low bytes of a number below 2^64 are the eight bytes of the number.
proof fn lemma_eight_bytes(u: nat)
    requires
        u < 18446744073709551616,
    ensures
        unsigned_bytes(u, 8) == le64(u as u64),
{
    let low = u % 4294967296;
    let high = u / 4294967296;
    lemma_bytes_in_halves(u);
    lemma_four_bytes(low);
    lemma_four_bytes(high);
}

/// The low eight bytes of a number are the low four bytes of its low half
/// followed by the low four bytes of its high half.
proof fn lemma_bytes_in_halves(u: nat)
    ensures
        unsigned_bytes(u, 8) == unsigned_bytes(u % 4294967296, 4) + unsigned_bytes(
            u / 4294967296,
            4,
        ),
{
    reveal_with_fuel(unsigned_bytes, 5);
    let a = u / 256;
    let b = a / 256;
    let c = b / 256;
    let d = c / 256;
    assert(d == u / 4294967296);
    let low = u % 4294967296;
    assert(low % 256 == u % 256);
    assert(low / 256 % 256 == a % 256);
    assert(low / 256 / 256 % 256 == b % 256);
    assert(low / 256 / 256 / 256 % 256 == c % 256);
    assert(unsigned_bytes(u, 8) =~= seq![
        (u % 256) as u8,
        (a % 256) as u8,
        (b % 256) as u8,
        (c % 256) as u8,
    ] + unsigned_bytes(d, 4));
    assert(unsigned_bytes(low, 4) =~= seq![
        (u % 256) as u8,
        (a % 256) as u8,
        (b % 256) as u8,
        (c % 256) as u8,
    ]);
}

/// An argument of a whole-number type travels as the value of that type
/// does: every value of the type is within the bounds of an argument, and the
/// bytes of the argument are the bytes of the value.
pub proof fn lemma_argument_is_value(v: RpcValueView)
    requires
        whole_number(v) is Some,
    ensures
        arg_min(kind_of_value(v)) <= whole_number(v)->Some_0 <= arg_max(kind_of_value(v)),
        number_bytes(whole_number(v)->Some_0, arg_width(kind_of_value(v))) == value_bytes(v),
{
    let n = whole_number(v)->Some_0;
    let width = arg_width(kind_of_value(v));
    let u = (if n < 0 {
        n + modulus(width)
    } else {
        n
    }) as nat;
    if width == 1 {
        reveal_with_fuel(unsigned_bytes, 2);
        assert(unsigned_bytes(u, 1) =~= seq![(u % 256) as u8]);
    } else if width == 2 {
        lemma_two_bytes(u);
    } else if width == 4 {
        lemma_four_bytes(u);
    } else {
        lemma_eight_bytes(u);
    }
}

/// A reply that holds the bytes of a whole number of the type it is read as
/// is shown as that number in decimal notation.
pub proof fn lemma_reply_shows_value(kind_name: Seq<char>, v: RpcValueView)
    requires
        type_named(kind_name) == Some(kind_of_value(v)),
        whole_number(v) is Some,
    ensures
        reply_decoding(kind_name, value_bytes(v)) == Ok::<ReplyValueView, RpcValueError>(
            ReplyValueView::Text(signed_decimal(whole_number(v)->Some_0)),
        ),
{
    let b = value_bytes(v);
    lemma_value_round_trip(v);
    assert(b.subrange(0, b.len() as int) =~= b);
    match v {
        RpcValueView::Int8(x) => lemma_signed_round_trip(x as int, 128),
        RpcValueView::Int16(x) => {
            lemma_signed_round_trip(x as int, 32768);
            lemma_le16_round_trip(unsigned_of(x as int, 32768) as u16);
        },
        RpcValueView::Int32(x) => {
            lemma_signed_round_trip(x as int, 2147483648);
            lemma_le32_round_trip(unsigned_of(x as int, 2147483648) as u32);
        },
        RpcValueView::Int64(x) => {
            lemma_signed_round_trip(x as int, 9223372036854775808);
            lemma_le64_round_trip(unsigned_of(x as int, 9223372036854775808) as u64);
        },
        _ => {},
    }
}

/// Reading the bytes of a value as its type gives the value back.
pub proof fn lemma_value_round_trip(v: RpcValueView)
    ensures
        value_of(kind_of_value(v), value_bytes(v)) == Some(v),
{
    match v {
        RpcValueView::UInt8(x) => {},
        RpcValueView::UInt16(x) => lemma_le16_round_trip(x),
        RpcValueView::UInt32(x) => lemma_le32_round_trip(x),
        RpcValueView::UInt64(x) => lemma_le64_round_trip(x),
        RpcValueView::Int8(x) => lemma_signed_round_trip(x as int, 128),
        RpcValueView::Int16(x) => {
            lemma_signed_round_trip(x as int, 32768);
            lemma_le16_round_trip(unsigned_of(x as int, 32768) as u16);
        },
        RpcValueView::Int32(x) => {
            lemma_signed_round_trip(x as int, 2147483648);
            lemma_le32_round_trip(unsigned_of(x as int, 2147483648) as u32);
        },
        RpcValueView::Int64(x) => {
            lemma_signed_round_trip(x as int, 9223372036854775808);
            lemma_le64_round_trip(unsigned_of(x as int, 9223372036854775808) as u64);
        },
        RpcValueView::Float32(x) => lemma_le32_round_trip(x),
        RpcValueView::Float64(x) => lemma_le64_round_trip(x),
        RpcValueView::Text(t) => crate::wire::lemma_text_round_trip(t),
    }
}

impl RpcValue {
    /// The type of the value.
    pub fn kind(&self) -> (t: RpcType)
        ensures
            t == kind_of_value(self@),
    {
        match self {
            RpcValue::UInt8(_) => RpcType::UInt8,
            RpcValue::UInt16(_) => RpcType::UInt16,
            RpcValue::UInt32(_) => RpcType::UInt32,
            RpcValue::UInt64(_) => RpcType::UInt64,
            RpcValue::Int8(_) => RpcType::Int8,
            RpcValue::Int16(_) => RpcType::Int16,
            RpcValue::Int32(_) => RpcType::Int32,
            RpcValue::Int64(_) => RpcType::Int64,
            RpcValue::Float32(_) => RpcType::Float32,
            RpcValue::Float64(_) => RpcType::Float64,
            RpcValue::Text(_) => RpcType::Text,
        }
    }

    /// The bytes in which the value travels.
    pub fn to_bytes(&self) -> (r: Vec<u8>)
        ensures
            r@ == value_bytes(self@),
    {
        let mut out: Vec<u8> = Vec::new();
        match self {
            RpcValue::UInt8(x) => out.push(*x),
            RpcValue::UInt16(x) => push_le16(&mut out, *x),
            RpcValue::UInt32(x) => crate::wire::push_le32(&mut out, *x),
            RpcValue::UInt64(x) => crate::wire::push_le64(&mut out, *x),
            RpcValue::Int8(x) => {
                let v = *x as i16;
                out.push(
                    (if v < 0 {
                        v + 256
                    } else {
                        v
                    }) as u8,
                );
            },
            RpcValue::Int16(x) => {
                let v = *x as i32;
                push_le16(
                    &mut out,
                    (if v < 0 {
                        v + 65536
                    } else {
                        v
                    }) as u16,
                );
            },
            RpcValue::Int32(x) => {
                let v = *x as i64;
                crate::wire::push_le32(
                    &mut out,
                    (if v < 0 {
                        v + 4294967296
                    } else {
                        v
                    }) as u32,
                );
            },
            RpcValue::Int64(x) => {
                let v = *x as i128;
                crate::wire::push_le64(
                    &mut out,
                    (if v < 0 {
                        v + 18446744073709551616
                    } else {
                        v
                    }) as u64,
                );
            },
            RpcValue::Float32(x) => crate::wire::push_le32(&mut out, *x),
            RpcValue::Float64(x) => crate::wire::push_le64(&mut out, *x),
            RpcValue::Text(t) => crate::wire::push_text_bytes(&mut out, t.as_str()),
        }
        proof {
            assert(out@ =~= value_bytes(self@));
        }
        out
    }

    /// The value of type `t` that bytes are, if they are one.
    pub fn from_bytes(t: RpcType, bytes: &Vec<u8>) -> (r: Option<RpcValue>)
        ensures
            match value_of(t, bytes@) {
                Some(v) => r is Some && r->Some_0@ == v,
                None => r is None,
            },
    {
        proof {
            assert(bytes@.subrange(0, bytes.len() as int) =~= bytes@);
        }
        match t {
            RpcType::Text => match read_text(bytes, 0, bytes.len()) {
                Some(text) => Some(RpcValue::Text(text)),
                None => None,
            },
            RpcType::UInt8 => if bytes.len() != 1 {
                None
            } else {
                Some(RpcValue::UInt8(bytes[0]))
            },
            RpcType::UInt16 => if bytes.len() != 2 {
                None
            } else {
                Some(RpcValue::UInt16(read_le16(bytes, 0)))
            },
            RpcType::UInt32 => if bytes.len() != 4 {
                None
            } else {
                Some(RpcValue::UInt32(read_le32(bytes, 0)))
            },
            RpcType::UInt64 => if bytes.len() != 8 {
                None
            } else {
                Some(RpcValue::UInt64(read_le64(bytes, 0)))
            },
            RpcType::Int8 => if bytes.len() != 1 {
                None
            } else {
                let v = bytes[0] as i16;
                Some(
                    RpcValue::Int8(
                        (if v >= 128 {
                            v - 256
                        } else {
                            v
                        }) as i8,
                    ),
                )
            },
            RpcType::Int16 => if bytes.len() != 2 {
                None
            } else {
                let v = read_le16(bytes, 0) as i32;
                Some(
                    RpcValue::Int16(
                        (if v >= 32768 {
                            v - 65536
                        } else {
                            v
                        }) as i16,
                    ),
                )
            },
            RpcType::Int32 => if bytes.len() != 4 {
                None
            } else {
                let v = read_le32(bytes, 0) as i64;
                Some(
                    RpcValue::Int32(
                        (if v >= 2147483648 {
                            v - 4294967296
                        } else {
                            v
                        }) as i32,
                    ),
                )
            },
            RpcType::Int64 => if bytes.len() != 8 {
                None
            } else {
                let v = read_le64(bytes, 0) as i128;
                Some(
                    RpcValue::Int64(
                        (if v >= 9223372036854775808 {
                            v - 18446744073709551616
                        } else {
                            v
                        }) as i64,
                    ),
                )
            },
            RpcType::Float32 => if bytes.len() != 4 {
                None
            } else {
                Some(RpcValue::Float32(read_le32(bytes, 0)))
            },
            RpcType::Float64 => if bytes.len() != 8 {
                None
            } else {
                Some(RpcValue::Float64(read_le64(bytes, 0)))
            },
        }
    }
}

} // verus!
