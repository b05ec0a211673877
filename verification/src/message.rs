//! The section grammar of a message, checked before a codec can overwrite duplicate sections.

use vstd::prelude::*;

use crate::admission::{self, AdmissionError, Scan, Scanned};
use crate::codec::Error;

verus! {

/// The UTF-8 bytes of a text.
pub open spec fn text_bytes(text: &str) -> Seq<u8> {
    vstd::utf8::encode_utf8(text@)
}

/// The numeric descriptor of the message section that a symbolic descriptor names.
pub open spec fn section_code(name: Seq<u8>) -> Option<nat> {
    if name == text_bytes("amqp:header:list") {
        Some(0x70)
    } else if name == text_bytes("amqp:delivery-annotations:map") {
        Some(0x71)
    } else if name == text_bytes("amqp:message-annotations:map") {
        Some(0x72)
    } else if name == text_bytes("amqp:properties:list") {
        Some(0x73)
    } else if name == text_bytes("amqp:application-properties:map") {
        Some(0x74)
    } else if name == text_bytes("amqp:data:binary") {
        Some(0x75)
    } else if name == text_bytes("amqp:amqp-sequence:list") {
        Some(0x76)
    } else if name == text_bytes("amqp:amqp-value:*") {
        Some(0x77)
    } else if name == text_bytes("amqp:footer:map") {
        Some(0x78)
    } else {
        None
    }
}

/// The numeric descriptor of an encoded section and the encoding of what it describes.
pub open spec fn described(section: Seq<u8>) -> Option<(nat, Seq<u8>)> {
    if section.len() < 2 || section[0] != 0 {
        None
    } else if section[1] == 0x53 {
        if section.len() < 3 {
            None
        } else {
            Some((section[2] as nat, section.skip(3)))
        }
    } else if section[1] == 0x80 {
        if section.len() < 10 {
            None
        } else {
            Some((admission::big_endian(section.subrange(2, 10)), section.skip(10)))
        }
    } else if section[1] == 0xa3 || section[1] == 0xb3 {
        let start = 2 + admission::length_width(section[1]);
        let end = start + admission::big_endian(section.subrange(2, start as int));
        if section.len() < start || section.len() < end {
            None
        } else {
            match section_code(section.subrange(start as int, end as int)) {
                None => None,
                Some(code) => Some((code, section.skip(end as int))),
            }
        }
    } else {
        None
    }
}

/// Whether `name` is the UTF-8 encoding of `text`.
fn is_text(name: &[u8], text: &str) -> (same: bool)
    ensures
        same == (name@ == text_bytes(text)),
{
    let bytes = text.as_bytes();
    if name.len() != bytes.len() {
        return false;
    }
    let mut i: usize = 0;
    while i < name.len()
        invariant
            i <= name@.len() == bytes@.len(),
            bytes@ == text_bytes(text),
            forall|j: int| 0 <= j < i ==> name@[j] == bytes@[j],
        decreases name@.len() - i,
    {
        if name[i] != bytes[i] {
            return false;
        }
        i += 1;
    }
    assert(name@ =~= bytes@);
    true
}

fn named_section(name: &[u8]) -> (code: Option<u64>)
    ensures
        match code {
            Some(code) => section_code(name@) == Some(code as nat),
            None => section_code(name@) is None,
        },
{
    if is_text(name, "amqp:header:list") {
        Some(0x70)
    } else if is_text(name, "amqp:delivery-annotations:map") {
        Some(0x71)
    } else if is_text(name, "amqp:message-annotations:map") {
        Some(0x72)
    } else if is_text(name, "amqp:properties:list") {
        Some(0x73)
    } else if is_text(name, "amqp:application-properties:map") {
        Some(0x74)
    } else if is_text(name, "amqp:data:binary") {
        Some(0x75)
    } else if is_text(name, "amqp:amqp-sequence:list") {
        Some(0x76)
    } else if is_text(name, "amqp:amqp-value:*") {
        Some(0x77)
    } else if is_text(name, "amqp:footer:map") {
        Some(0x78)
    } else {
        None
    }
}

/// Splits an encoded section into its numeric descriptor and what it describes.
pub fn descriptor(bytes: &[u8]) -> (result: Result<(u64, &[u8]), Error>)
    ensures
        match result {
            Ok((code, body)) => described(bytes@) == Some((code as nat, body@)),
            Err(error) => described(bytes@) is None && error == Error::InvalidValue,
        },
{
    let length = bytes.len();
    if length < 2 || bytes[0] != 0 {
        return Err(Error::InvalidValue);
    }
    let (code, offset): (u64, usize) = match bytes[1] {
        0x53 => {
            if length < 3 {
                return Err(Error::InvalidValue);
            }
            (bytes[2] as u64, 3)
        },
        0x80 => {
            if length < 10 {
                return Err(Error::InvalidValue);
            }
            (admission::read_number(&bytes[2..10]), 10)
        },
        0xa3 | 0xb3 => {
            let start: usize = if bytes[1] == 0xa3 {
                3
            } else {
                6
            };
            if length < start {
                return Err(Error::InvalidValue);
            }
            proof {
                admission::lemma_big_endian_fits(bytes@.subrange(2, start as int));
            }
            let size = admission::read_number(&bytes[2..start]) as usize;
            if length - start < size {
                return Err(Error::InvalidValue);
            }
            let end = start + size;
            match named_section(&bytes[start..end]) {
                None => return Err(Error::InvalidValue),
                Some(code) => (code, end),
            }
        },
        _ => return Err(Error::InvalidValue),
    };
    let body = &bytes[offset..length];
    assert(body@ =~= bytes@.skip(offset as int));
    Ok((code, body))
}

/// The length of the first section and how many nodes are counted after it.
pub open spec fn first_section(bytes: Seq<u8>, nodes: nat) -> Scanned {
    admission::value(bytes, nodes, admission::default_limits(), 0)
}

/// Whether a section of descriptor `code` may follow one of descriptor `previous`.
///
/// Sections stand in the order of their descriptors. Only data and sequence sections may repeat,
/// and the three kinds of body do not mix.
pub open spec fn may_follow(previous: Option<nat>, code: nat) -> bool {
    match previous {
        None => true,
        Some(last) => {
            &&& last < code || last == code && (code == 0x75 || code == 0x76)
            &&& !(last == 0x75 && code == 0x76)
            &&& !((last == 0x75 || last == 0x76) && code == 0x77)
        },
    }
}

/// Whether the section of descriptor `code` may hold a value of format code `format`.
pub open spec fn body_allowed(code: nat, format: u8) -> bool {
    if code == 0x70 || code == 0x73 || code == 0x76 {
        format == 0x45 || format == 0xc0 || format == 0xd0
    } else if code == 0x71 || code == 0x72 || code == 0x74 || code == 0x78 {
        format == 0xc1 || format == 0xd1
    } else if code == 0x75 {
        format == 0xa0 || format == 0xb0
    } else {
        code == 0x77
    }
}

/// Whether `bytes` are sections of a message that may stand after one of descriptor `previous`.
pub open spec fn sections_allowed(bytes: Seq<u8>, nodes: nat, previous: Option<nat>) -> bool
    decreases bytes.len(),
{
    let first = first_section(bytes, nodes);
    if bytes.len() == 0 {
        true
    } else if first.error is Some {
        false
    } else {
        proof {
            admission::lemma_value_takes(bytes, nodes, admission::default_limits(), 0);
        }
        match described(bytes.take(first.used as int)) {
            None => false,
            Some((code, body)) => {
                &&& may_follow(previous, code)
                &&& body.len() > 0
                &&& body_allowed(code, body[0])
                &&& sections_allowed(bytes.skip(first.used as int), first.nodes, Some(code))
            },
        }
    }
}

/// Whether `bytes` are the sections of a message, in order, each of its own kind.
pub open spec fn valid_message(bytes: Seq<u8>) -> bool {
    sections_allowed(bytes, 0, None)
}

/// Validate message section order, uniqueness, descriptors and body families.
pub fn validate(bytes: &[u8]) -> (result: Result<(), Error>)
    ensures
        result == (if valid_message(bytes@) {
            Ok::<(), Error>(())
        } else {
            Err(Error::InvalidValue)
        }),
{
    let mut scan = Scan::new(bytes);
    let mut previous: Option<u64> = None;
    while !scan.remaining().is_empty()
        invariant
            scan.bounds() == admission::default_limits(),
            valid_message(bytes@) == sections_allowed(
                scan.rest(),
                scan.node_count(),
                match previous {
                    None => None,
                    Some(code) => Some(code as nat),
                },
            ),
        decreases scan.rest().len(),
    {
        let start = scan.remaining();
        let ghost first = first_section(scan.rest(), scan.node_count());
        proof {
            admission::lemma_value_takes(
                scan.rest(),
                scan.node_count(),
                admission::default_limits(),
                0,
            );
        }
        if scan.value(0).is_err() {
            return Err(Error::InvalidValue);
        }
        let section = &start[0..start.len() - scan.remaining().len()];
        assert(section@ =~= start@.take(first.used as int));
        let (code, body) = match descriptor(section) {
            Ok(described) => described,
            Err(error) => return Err(error),
        };
        if let Some(last) = previous {
            if code < last || code == last && !matches!(code, 0x75 | 0x76) || last == 0x75 && code
                == 0x76 || matches!(last, 0x75 | 0x76) && code == 0x77 {
                return Err(Error::InvalidValue);
            }
        }
        if body.is_empty() {
            return Err(Error::InvalidValue);
        }
        let format = body[0];
        let correct_type = match code {
            0x70 | 0x73 | 0x76 => matches!(format, 0x45 | 0xc0 | 0xd0),
            0x71 | 0x72 | 0x74 | 0x78 => matches!(format, 0xc1 | 0xd1),
            0x75 => matches!(format, 0xa0 | 0xb0),
            0x77 => true,
            _ => false,
        };
        if !correct_type {
            return Err(Error::InvalidValue);
        }
        previous = Some(code);
    }
    Ok(())
}

/// The length of the whole section at the front of `bytes`, where one is there.
pub open spec fn whole_section(bytes: Seq<u8>) -> Option<nat> {
    match admission::extent(bytes) {
        Ok(length) => if described(bytes.take(length as int)) is Some {
            Some(length)
        } else {
            None
        },
        Err(_) => None,
    }
}

/// The section and the byte within it at which a received prefix ends, when `number` whole
/// sections stand before `bytes`.
pub open spec fn position_after(bytes: Seq<u8>, number: nat) -> Result<(nat, nat), Error>
    decreases bytes.len(),
{
    if bytes.len() == 0 {
        Ok((number, 0))
    } else if let Some(length) = whole_section(bytes) {
        if number + 1 > u32::MAX {
            Err(Error::InvalidValue)
        } else {
            proof {
                admission::lemma_value_takes(bytes, 0, admission::default_limits(), 0);
            }
            position_after(bytes.skip(length as int), number + 1)
        }
    } else if admission::extent(bytes) == Err::<nat, AdmissionError>(AdmissionError::Incomplete) {
        Ok((number, bytes.len()))
    } else {
        Err(Error::InvalidValue)
    }
}

/// The section and the byte within it at which a received prefix ends.
pub open spec fn position(bytes: Seq<u8>) -> Result<(nat, nat), Error> {
    position_after(bytes, 0)
}

/// The place in a received prefix that lies `offset` bytes into section `number`.
///
/// It must lie within the retained bytes and within that section.
pub open spec fn place(bytes: Seq<u8>, number: nat, offset: nat) -> Result<nat, Error>
    decreases number,
{
    if number > 0 {
        match whole_section(bytes) {
            None => Err(Error::InvalidValue),
            Some(length) => match place(bytes.skip(length as int), (number - 1) as nat, offset) {
                Ok(rest) => Ok(length + rest),
                Err(error) => Err(error),
            },
        }
    } else if offset > bytes.len() || (admission::extent(bytes) matches Ok(length) && offset
        > length) {
        Err(Error::InvalidValue)
    } else {
        Ok(offset)
    }
}

/// Find the section and byte position of the received prefix. Section boundaries are parsed by
/// encoded lengths, never by searching for descriptor-like payload bytes.
pub fn prefix_position(bytes: &[u8]) -> (result: Result<(u32, u64), Error>)
    ensures
        match result {
            Ok((number, offset)) => position(bytes@) == Ok::<(nat, nat), Error>(
                (number as nat, offset as nat),
            ),
            Err(error) => position(bytes@) == Err::<(nat, nat), Error>(error),
        },
{
    let length = bytes.len();
    let mut offset: usize = 0;
    let mut number: u32 = 0;
    assert(bytes@.skip(0) =~= bytes@);
    while offset < length
        invariant
            offset <= length == bytes@.len(),
            position(bytes@) == position_after(bytes@.skip(offset as int), number as nat),
        decreases length - offset,
    {
        let rest = &bytes[offset..length];
        assert(rest@ =~= bytes@.skip(offset as int));
        match admission::value_extent(rest) {
            Ok(extent) => {
                let section = &rest[0..extent];
                assert(section@ =~= rest@.take(extent as int));
                if let Err(error) = descriptor(section) {
                    return Err(error);
                }
                offset = offset + extent;
                assert(rest@.skip(extent as int) =~= bytes@.skip(offset as int));
                if number == u32::MAX {
                    return Err(Error::InvalidValue);
                }
                number = number + 1;
            },
            Err(AdmissionError::Incomplete) => {
                return Ok((number, rest.len() as u64));
            },
            Err(_) => {
                return Err(Error::InvalidValue);
            },
        }
    }
    Ok((number, 0))
}

/// Resolve an explicit resumption point into a retained prefix. Points beyond the retained bytes
/// or outside their encoded section are rejected.
pub fn prefix_offset(bytes: &[u8], number: u32, offset: u64) -> (result: Result<usize, Error>)
    ensures
        match result {
            Ok(index) => place(bytes@, number as nat, offset as nat) == Ok::<nat, Error>(
                index as nat,
            ) && index <= bytes@.len(),
            Err(error) => place(bytes@, number as nat, offset as nat) == Err::<nat, Error>(error),
        },
{
    let length = bytes.len();
    let mut start: usize = 0;
    let mut left: u32 = number;
    assert(bytes@.skip(0) =~= bytes@);
    while left > 0
        invariant
            left <= number,
            start <= length == bytes@.len(),
            place(bytes@, number as nat, offset as nat) == (match place(
                bytes@.skip(start as int),
                left as nat,
                offset as nat,
            ) {
                Ok(rest) => Ok::<nat, Error>((start + rest) as nat),
                Err(error) => Err(error),
            }),
        decreases left,
    {
        let rest = &bytes[start..length];
        assert(rest@ =~= bytes@.skip(start as int));
        let extent = match admission::value_extent(rest) {
            Ok(extent) => extent,
            Err(_) => return Err(Error::InvalidValue),
        };
        let section = &rest[0..extent];
        assert(section@ =~= rest@.take(extent as int));
        if let Err(error) = descriptor(section) {
            return Err(error);
        }
        start = start + extent;
        assert(rest@.skip(extent as int) =~= bytes@.skip(start as int));
        left = left - 1;
    }
    let rest = &bytes[start..length];
    assert(rest@ =~= bytes@.skip(start as int));
    if offset > rest.len() as u64 {
        return Err(Error::InvalidValue);
    }
    if let Ok(extent) = admission::value_extent(rest) {
        if offset > extent as u64 {
            return Err(Error::InvalidValue);
        }
    }
    Ok(start + offset as usize)
}

} // verus!
