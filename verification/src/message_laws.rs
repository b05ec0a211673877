//! What holds of message sections and of positions in a received prefix.

use vstd::prelude::*;

use crate::admission;
use crate::admission::AdmissionError;
use crate::admission_laws;
use crate::codec::Error;
use crate::message;

verus! {

proof fn lemma_whole_section_takes(bytes: Seq<u8>)
    ensures
        message::whole_section(bytes) matches Some(length) ==> 1 <= length <= bytes.len(),
{
    admission::lemma_value_takes(bytes, 0, admission::default_limits(), 0);
}

proof fn lemma_position_number(bytes: Seq<u8>, number: nat)
    requires
        message::position_after(bytes, number) is Ok,
    ensures
        message::position_after(bytes, number)->Ok_0.0 >= number,
    decreases bytes.len(),
{
    lemma_whole_section_takes(bytes);
    if bytes.len() > 0 {
        if let Some(length) = message::whole_section(bytes) {
            lemma_position_number(bytes.skip(length as int), number + 1);
        }
    }
}

proof fn lemma_position_resolves(bytes: Seq<u8>, number: nat)
    requires
        message::position_after(bytes, number) is Ok,
    ensures
        ({
            let end = message::position_after(bytes, number)->Ok_0;
            message::place(bytes, (end.0 - number) as nat, end.1) == Ok::<nat, Error>(bytes.len())
        }),
    decreases bytes.len(),
{
    lemma_whole_section_takes(bytes);
    lemma_position_number(bytes, number);
    admission::lemma_value_takes(bytes, 0, admission::default_limits(), 0);
    if bytes.len() > 0 {
        if let Some(length) = message::whole_section(bytes) {
            lemma_position_resolves(bytes.skip(length as int), number + 1);
            lemma_position_number(bytes.skip(length as int), number + 1);
        }
    }
}

/// The position of a received prefix, taken as a resumption point, is the end of that prefix.
pub proof fn law_position_resolves_to_the_end(bytes: Seq<u8>)
    requires
        message::position(bytes) is Ok,
    ensures
        ({
            let end = message::position(bytes)->Ok_0;
            message::place(bytes, end.0, end.1) == Ok::<nat, Error>(bytes.len())
        }),
{
    lemma_position_resolves(bytes, 0);
}

/// A resumption point lies within the retained bytes.
pub proof fn law_places_are_retained(bytes: Seq<u8>, number: nat, offset: nat)
    requires
        message::place(bytes, number, offset) is Ok,
    ensures
        offset <= message::place(bytes, number, offset)->Ok_0 <= bytes.len(),
    decreases number,
{
    lemma_whole_section_takes(bytes);
    if number > 0 {
        let length = message::whole_section(bytes)->0;
        law_places_are_retained(bytes.skip(length as int), (number - 1) as nat, offset);
    }
}

proof fn lemma_whole_section_kept(bytes: Seq<u8>, kept: int)
    requires
        message::whole_section(bytes) matches Some(length) && length <= kept <= bytes.len(),
    ensures
        message::whole_section(bytes.take(kept)) == message::whole_section(bytes),
{
    let length = message::whole_section(bytes)->0;
    assert(bytes.take(kept) + bytes.skip(kept) =~= bytes);
    if admission::extent(bytes.take(kept)) == Err::<nat, AdmissionError>(
        AdmissionError::Incomplete,
    ) {
        assert(bytes.take(kept).take(length as int) + bytes.take(kept).skip(length as int)
            =~= bytes.take(kept));
        assert(bytes.take(length as int) + bytes.skip(length as int) =~= bytes);
        assert(bytes.take(kept).take(length as int) =~= bytes.take(length as int));
        admission_laws::law_own_bytes_decide(bytes);
        admission_laws::law_decisions_are_final(
            bytes.take(length as int),
            bytes.take(kept).skip(length as int),
            0,
            admission::default_limits(),
            0,
        );
    } else {
        admission_laws::law_decisions_are_final(
            bytes.take(kept),
            bytes.skip(kept),
            0,
            admission::default_limits(),
            0,
        );
        assert(bytes.take(kept).take(length as int) =~= bytes.take(length as int));
    }
}

proof fn lemma_fragment_position(bytes: Seq<u8>, number: nat, kept: int)
    requires
        message::position_after(bytes, number) is Ok,
        0 <= kept <= bytes.len(),
    ensures
        message::position_after(bytes.take(kept), number) is Ok,
        message::position_after(bytes.take(kept), number)->Ok_0.0 <= message::position_after(
            bytes,
            number,
        )->Ok_0.0,
    decreases bytes.len(),
{
    lemma_whole_section_takes(bytes);
    lemma_position_number(bytes, number);
    if bytes.len() > 0 && kept > 0 {
        if let Some(length) = message::whole_section(bytes) {
            if length <= kept {
                lemma_whole_section_kept(bytes, kept);
                lemma_fragment_position(bytes.skip(length as int), number + 1, kept - length);
                assert(bytes.take(kept).skip(length as int) =~= bytes.skip(length as int).take(
                    kept - length,
                ));
            } else {
                admission_laws::law_truncation_is_incomplete(bytes, kept);
            }
        } else {
            admission_laws::law_pieces_of_incomplete_are_incomplete(bytes, kept);
        }
    }
}

/// A message may be cut anywhere: every piece of a received prefix has a position too.
pub proof fn law_every_fragment_has_a_position(bytes: Seq<u8>, kept: int)
    requires
        message::position(bytes) is Ok,
        0 <= kept <= bytes.len(),
    ensures
        message::position(bytes.take(kept)) is Ok,
{
    lemma_fragment_position(bytes, 0, kept);
}

/// The position that a resumption point stands for once the bytes after it are gone. A point at
/// the end of a whole section is the start of the next one.
pub open spec fn resumed_position(bytes: Seq<u8>, number: nat, offset: nat) -> (nat, nat)
    decreases number,
{
    if number > 0 {
        let length = message::whole_section(bytes)->0;
        let rest = resumed_position(bytes.skip(length as int), (number - 1) as nat, offset);
        (rest.0 + 1, rest.1)
    } else if message::whole_section(bytes) == Some(offset) {
        (1, 0)
    } else {
        (0, offset)
    }
}

proof fn lemma_cut_section(bytes: Seq<u8>, before: nat)
    requires
        bytes.len() > 0,
        admission::extent(bytes) == Err::<nat, AdmissionError>(AdmissionError::Incomplete),
    ensures
        message::position_after(bytes, before) == Ok::<(nat, nat), Error>((before, bytes.len())),
{
}

proof fn lemma_one_section(bytes: Seq<u8>, before: nat)
    requires
        message::whole_section(bytes) == Some(bytes.len()),
        before + 1 <= u32::MAX,
    ensures
        message::position_after(bytes, before) == Ok::<(nat, nat), Error>((before + 1, 0)),
{
    lemma_whole_section_takes(bytes);
    let rest = bytes.skip(bytes.len() as int);
    assert(rest.len() == 0);
    assert(message::position_after(rest, before + 1) == Ok::<(nat, nat), Error>((before + 1, 0)));
}

proof fn lemma_resumption_in_section(bytes: Seq<u8>, before: nat, offset: nat)
    requires
        message::position_after(bytes, before) is Ok,
        message::place(bytes, 0, offset) is Ok,
    ensures
        ({
            let end = resumed_position(bytes, 0, offset);
            message::position_after(bytes.take(offset as int), before) == Ok::<(nat, nat), Error>(
                (before + end.0, end.1),
            )
        }),
{
    lemma_whole_section_takes(bytes);
    let kept = offset as int;
    if offset > 0 {
        if message::whole_section(bytes) == Some(offset) {
            lemma_whole_section_kept(bytes, kept);
            lemma_one_section(bytes.take(kept), before);
        } else {
            if message::whole_section(bytes) is Some {
                admission_laws::law_truncation_is_incomplete(bytes, kept);
            } else {
                admission_laws::law_pieces_of_incomplete_are_incomplete(bytes, kept);
            }
            lemma_cut_section(bytes.take(kept), before);
        }
    }
}

proof fn lemma_section_step(bytes: Seq<u8>, before: nat)
    requires
        message::position_after(bytes, before) is Ok,
        message::whole_section(bytes) is Some,
    ensures
        before + 1 <= u32::MAX,
        message::position_after(bytes, before) == message::position_after(
            bytes.skip(message::whole_section(bytes)->0 as int),
            before + 1,
        ),
{
    lemma_whole_section_takes(bytes);
}

proof fn lemma_section_steps(bytes: Seq<u8>, before: nat)
    requires
        before + 1 <= u32::MAX,
        message::whole_section(bytes) is Some,
    ensures
        message::position_after(bytes, before) == message::position_after(
            bytes.skip(message::whole_section(bytes)->0 as int),
            before + 1,
        ),
{
    lemma_whole_section_takes(bytes);
}

proof fn lemma_resumption(bytes: Seq<u8>, before: nat, number: nat, offset: nat)
    requires
        message::position_after(bytes, before) is Ok,
        message::place(bytes, number, offset) is Ok,
    ensures
        ({
            let kept = message::place(bytes, number, offset)->Ok_0 as int;
            let end = resumed_position(bytes, number, offset);
            message::position_after(bytes.take(kept), before) == Ok::<(nat, nat), Error>(
                (before + end.0, end.1),
            )
        }),
    decreases number,
{
    if number == 0 {
        lemma_resumption_in_section(bytes, before, offset);
    } else {
        let fewer = (number - 1) as nat;
        let kept = message::place(bytes, number, offset)->Ok_0 as int;
        let length = message::whole_section(bytes)->0;
        let rest = bytes.skip(length as int);
        assert(message::whole_section(bytes) == Some(length) && message::place(
            rest,
            fewer,
            offset,
        ) == Ok::<nat, Error>((kept - length) as nat) && kept >= length);
        let end = resumed_position(rest, fewer, offset);
        assert(resumed_position(bytes, number, offset) == (end.0 + 1, end.1));
        lemma_section_step(bytes, before);
        lemma_resumption(rest, before + 1, fewer, offset);
        lemma_section_kept(bytes, number, offset, before);
    }
}

proof fn lemma_section_kept(bytes: Seq<u8>, number: nat, offset: nat, before: nat)
    requires
        number > 0,
        before + 1 <= u32::MAX,
        message::place(bytes, number, offset) is Ok,
    ensures
        ({
            let kept = message::place(bytes, number, offset)->Ok_0;
            let length = message::whole_section(bytes)->0;
            message::position_after(bytes.take(kept as int), before) == message::position_after(
                bytes.skip(length as int).take(kept - length),
                before + 1,
            )
        }),
{
    let kept = message::place(bytes, number, offset)->Ok_0 as int;
    let length = message::whole_section(bytes)->0;
    let rest = bytes.skip(length as int);
    lemma_whole_section_takes(bytes);
    law_places_are_retained(bytes, number, offset);
    lemma_whole_section_kept(bytes, kept);
    lemma_section_steps(bytes.take(kept), before);
    assert(bytes.take(kept).skip(length as int) =~= rest.take(kept - length));
}

/// Cutting a received prefix at a resumption point leaves a prefix whose position is that point.
pub proof fn law_resumption_point_is_the_new_position(bytes: Seq<u8>, number: nat, offset: nat)
    requires
        message::position(bytes) is Ok,
        message::place(bytes, number, offset) is Ok,
    ensures
        message::position(bytes.take(message::place(bytes, number, offset)->Ok_0 as int)) == Ok::<
            (nat, nat),
            Error,
        >(resumed_position(bytes, number, offset)),
{
    lemma_resumption(bytes, 0, number, offset);
}

/// The descriptors of the sections of a message, in order.
pub open spec fn section_codes(bytes: Seq<u8>, nodes: nat) -> Seq<nat>
    decreases bytes.len(),
{
    let first = message::first_section(bytes, nodes);
    if bytes.len() == 0 || first.error is Some {
        seq![]
    } else {
        proof {
            admission::lemma_value_takes(bytes, nodes, admission::default_limits(), 0);
        }
        match message::described(bytes.take(first.used as int)) {
            None => seq![],
            Some((code, _)) => seq![code] + section_codes(
                bytes.skip(first.used as int),
                first.nodes,
            ),
        }
    }
}

/// Whether a section of descriptor `later` may stand anywhere after one of descriptor `earlier`.
pub open spec fn may_come_after(earlier: nat, later: nat) -> bool {
    &&& earlier < later || earlier == later && (later == 0x75 || later == 0x76)
    &&& 0x75 <= earlier <= 0x77 && 0x75 <= later <= 0x77 ==> earlier == later
}

proof fn lemma_sections_follow(bytes: Seq<u8>, nodes: nat, previous: Option<nat>, at: int)
    requires
        message::sections_allowed(bytes, nodes, previous),
        0 <= at < section_codes(bytes, nodes).len(),
    ensures
        0x70 <= section_codes(bytes, nodes)[at] <= 0x78,
        previous matches Some(last) ==> may_come_after(last, section_codes(bytes, nodes)[at]),
    decreases bytes.len(),
{
    let first = message::first_section(bytes, nodes);
    admission::lemma_value_takes(bytes, nodes, admission::default_limits(), 0);
    let (code, _) = message::described(bytes.take(first.used as int))->0;
    if at > 0 {
        let rest = bytes.skip(first.used as int);
        lemma_sections_follow(rest, first.nodes, Some(code), at - 1);
        assert(section_codes(bytes, nodes)[at] == section_codes(rest, first.nodes)[at - 1]);
    }
}

proof fn lemma_sections_ordered(
    bytes: Seq<u8>,
    nodes: nat,
    previous: Option<nat>,
    earlier: int,
    later: int,
)
    requires
        message::sections_allowed(bytes, nodes, previous),
        0 <= earlier < later < section_codes(bytes, nodes).len(),
    ensures
        may_come_after(section_codes(bytes, nodes)[earlier], section_codes(bytes, nodes)[later]),
    decreases bytes.len(),
{
    let first = message::first_section(bytes, nodes);
    admission::lemma_value_takes(bytes, nodes, admission::default_limits(), 0);
    let (code, _) = message::described(bytes.take(first.used as int))->0;
    let rest = bytes.skip(first.used as int);
    let codes = section_codes(rest, first.nodes);
    assert(section_codes(bytes, nodes) == seq![code] + codes);
    if earlier == 0 {
        lemma_sections_follow(rest, first.nodes, Some(code), later - 1);
    } else {
        lemma_sections_ordered(rest, first.nodes, Some(code), earlier - 1, later - 1);
    }
}

/// In a valid message sections stand in the order of their descriptors, only data and sequence
/// sections repeat, and all body sections are of one family.
pub proof fn law_sections_are_ordered_and_unique(bytes: Seq<u8>, earlier: int, later: int)
    requires
        message::valid_message(bytes),
        0 <= earlier < later < section_codes(bytes, 0).len(),
    ensures
        may_come_after(section_codes(bytes, 0)[earlier], section_codes(bytes, 0)[later]),
{
    lemma_sections_ordered(bytes, 0, None, earlier, later);
}

/// Every section of a valid message has one of the nine descriptors of message sections.
pub proof fn law_sections_are_known(bytes: Seq<u8>, at: int)
    requires
        message::valid_message(bytes),
        0 <= at < section_codes(bytes, 0).len(),
    ensures
        0x70 <= section_codes(bytes, 0)[at] <= 0x78,
{
    lemma_sections_follow(bytes, 0, None, at);
}

proof fn lemma_valid_position(bytes: Seq<u8>, nodes: nat, previous: Option<nat>, number: nat)
    requires
        message::sections_allowed(bytes, nodes, previous),
        number <= nodes <= admission::default_limits().nodes,
    ensures
        message::position_after(bytes, number) == Ok::<(nat, nat), Error>(
            (number + section_codes(bytes, nodes).len(), 0),
        ),
    decreases bytes.len(),
{
    if bytes.len() > 0 {
        let limits = admission::default_limits();
        let first = message::first_section(bytes, nodes);
        let rest = bytes.skip(first.used as int);
        let (code, _) = message::described(bytes.take(first.used as int))->0;
        admission::lemma_value_takes(bytes, nodes, limits, 0);
        admission_laws::law_wider_limits_admit_more(bytes, nodes, nodes, limits, limits, 0);
        admission_laws::law_admitted_values_fit_the_budget(bytes, nodes, limits, 0);
        assert(message::whole_section(bytes) == Some(first.used));
        lemma_valid_position(rest, first.nodes, Some(code), number + 1);
        assert(section_codes(bytes, nodes) == seq![code] + section_codes(rest, first.nodes));
    }
}

/// A valid message ends on a section boundary: its position is the number of its sections.
pub proof fn law_valid_message_ends_on_a_boundary(bytes: Seq<u8>)
    requires
        message::valid_message(bytes),
    ensures
        message::position(bytes) == Ok::<(nat, nat), Error>((section_codes(bytes, 0).len(), 0)),
{
    lemma_valid_position(bytes, 0, None, 0);
}

/// However a valid message is cut into fragments, every prefix of it has a position.
pub proof fn law_valid_messages_may_be_cut_anywhere(bytes: Seq<u8>, kept: int)
    requires
        message::valid_message(bytes),
        0 <= kept <= bytes.len(),
    ensures
        message::position(bytes.take(kept)) is Ok,
{
    law_valid_message_ends_on_a_boundary(bytes);
    law_every_fragment_has_a_position(bytes, kept);
}

/// The symbolic descriptors of the message sections, in the order of their numeric ones.
pub open spec fn section_names() -> Seq<Seq<u8>> {
    seq![
        message::text_bytes("amqp:header:list"),
        message::text_bytes("amqp:delivery-annotations:map"),
        message::text_bytes("amqp:message-annotations:map"),
        message::text_bytes("amqp:properties:list"),
        message::text_bytes("amqp:application-properties:map"),
        message::text_bytes("amqp:data:binary"),
        message::text_bytes("amqp:amqp-sequence:list"),
        message::text_bytes("amqp:amqp-value:*"),
        message::text_bytes("amqp:footer:map"),
    ]
}

/// A section under a symbolic descriptor, given the digits of the length of its name.
pub open spec fn symbolic_section(
    code: u8,
    length: Seq<u8>,
    name: Seq<u8>,
    body: Seq<u8>,
) -> Seq<u8> {
    seq![0u8, code] + length + name + body
}

/// A section under a numeric descriptor, given its digits.
pub open spec fn numeric_section(code: u8, digits: Seq<u8>, body: Seq<u8>) -> Seq<u8> {
    seq![0u8, code] + digits + body
}

/// The names differ, and each is short enough for its length to be one digit.
proof fn lemma_section_names(place: int)
    requires
        0 <= place < 9,
    ensures
        section_names()[place].len() < 256,
        message::section_code(section_names()[place]) == Some((0x70 + place) as nat),
{
    reveal_strlit("amqp:header:list");
    reveal_strlit("amqp:delivery-annotations:map");
    reveal_strlit("amqp:message-annotations:map");
    reveal_strlit("amqp:properties:list");
    reveal_strlit("amqp:application-properties:map");
    reveal_strlit("amqp:data:binary");
    reveal_strlit("amqp:amqp-sequence:list");
    reveal_strlit("amqp:amqp-value:*");
    reveal_strlit("amqp:footer:map");
    vstd::utf8::is_ascii_chars_encode_utf8("amqp:header:list"@);
    vstd::utf8::is_ascii_chars_encode_utf8("amqp:delivery-annotations:map"@);
    vstd::utf8::is_ascii_chars_encode_utf8("amqp:message-annotations:map"@);
    vstd::utf8::is_ascii_chars_encode_utf8("amqp:properties:list"@);
    vstd::utf8::is_ascii_chars_encode_utf8("amqp:application-properties:map"@);
    vstd::utf8::is_ascii_chars_encode_utf8("amqp:data:binary"@);
    vstd::utf8::is_ascii_chars_encode_utf8("amqp:amqp-sequence:list"@);
    vstd::utf8::is_ascii_chars_encode_utf8("amqp:amqp-value:*"@);
    vstd::utf8::is_ascii_chars_encode_utf8("amqp:footer:map"@);
    let header = message::text_bytes("amqp:header:list");
    let data = message::text_bytes("amqp:data:binary");
    assert(header.len() == 16 && data.len() == 16);
    assert(header[5] == 'h' as u8 && data[5] == 'd' as u8);
    assert(message::text_bytes("amqp:delivery-annotations:map").len() == 29);
    assert(message::text_bytes("amqp:message-annotations:map").len() == 28);
    assert(message::text_bytes("amqp:properties:list").len() == 20);
    assert(message::text_bytes("amqp:application-properties:map").len() == 31);
    assert(message::text_bytes("amqp:amqp-sequence:list").len() == 23);
    assert(message::text_bytes("amqp:amqp-value:*").len() == 17);
    assert(message::text_bytes("amqp:footer:map").len() == 15);
}

/// What a symbolic descriptor reads as.
proof fn lemma_symbolic(code: u8, length: Seq<u8>, name: Seq<u8>, body: Seq<u8>)
    requires
        code == 0xa3 || code == 0xb3,
        length.len() == admission::length_width(code),
        admission::big_endian(length) == name.len(),
    ensures
        message::described(symbolic_section(code, length, name, body)) == (
        match message::section_code(name) {
            None => None,
            Some(number) => Some((number, body)),
        }),
{
    let section = symbolic_section(code, length, name, body);
    let start = 2 + length.len() as int;
    let end = start + name.len() as int;
    assert(section[0] == 0 && section[1] == code);
    assert(section.subrange(2, start) =~= length);
    assert(section.subrange(start, end) =~= name);
    assert(section.skip(end) =~= body);
}

/// The encodings of a section descriptor read alike: a short or a long symbol, and a short or a
/// long number. `long_length` are the digits of the length of the name, `long_code` those of the
/// number.
pub proof fn law_descriptors_read_alike(
    place: int,
    long_length: Seq<u8>,
    long_code: Seq<u8>,
    body: Seq<u8>,
)
    requires
        0 <= place < 9,
        long_length.len() == 4,
        admission::big_endian(long_length) == section_names()[place].len(),
        long_code.len() == 8,
        admission::big_endian(long_code) == 0x70 + place,
    ensures
        ({
            let name = section_names()[place];
            let read = Some(((0x70 + place) as nat, body));
            &&& name.len() < 256
            &&& message::described(
                symbolic_section(0xa3, seq![name.len() as u8], name, body),
            ) == read
            &&& message::described(symbolic_section(0xb3, long_length, name, body)) == read
            &&& message::described(
                numeric_section(0x53, seq![(0x70 + place) as u8], body),
            ) == read
            &&& message::described(numeric_section(0x80, long_code, body)) == read
        }),
{
    let name = section_names()[place];
    lemma_section_names(place);
    lemma_one_digit(name.len() as u8);
    lemma_symbolic(0xa3, seq![name.len() as u8], name, body);
    lemma_symbolic(0xb3, long_length, name, body);
    let short = numeric_section(0x53, seq![(0x70 + place) as u8], body);
    assert(short[0] == 0 && short[1] == 0x53 && short[2] == 0x70 + place);
    assert(short.skip(3) =~= body);
    let long = numeric_section(0x80, long_code, body);
    assert(long[0] == 0 && long[1] == 0x80);
    assert(long.subrange(2, 10) =~= long_code);
    assert(long.skip(10) =~= body);
}

proof fn lemma_one_digit(digit: u8)
    ensures
        admission::big_endian(seq![digit]) == digit,
{
    let digits = seq![digit];
    assert(digits.drop_last() =~= Seq::<u8>::empty());
    assert(admission::big_endian(digits.drop_last()) == 0);
}

/// A symbol that is none of the nine names describes no section, in either encoding.
pub proof fn law_other_symbols_describe_nothing(
    code: u8,
    length: Seq<u8>,
    name: Seq<u8>,
    body: Seq<u8>,
)
    requires
        code == 0xa3 || code == 0xb3,
        length.len() == admission::length_width(code),
        admission::big_endian(length) == name.len(),
        !section_names().contains(name),
    ensures
        message::described(symbolic_section(code, length, name, body)) is None,
{
    let names = section_names();
    assert forall|place: int| 0 <= place < 9 implies name != #[trigger] names[place] by {
        assert(names.contains(names[place]));
    }
    assert(name != names[0] && name != names[1] && name != names[2] && name != names[3]);
    assert(name != names[4] && name != names[5] && name != names[6] && name != names[7]);
    assert(name != names[8]);
    lemma_symbolic(code, length, name, body);
}

/// Sections stand in the order of their descriptors. Data sections repeat, and so do sequence
/// sections, but no other; and no two kinds of body stand in one message. The first section may be
/// any.
pub proof fn law_sections_follow_each_other(last: nat, code: nat)
    ensures
        message::may_follow(None, code),
        message::may_follow(Some(last), code) <==> {
            ||| last < code && !(0x75 <= last && code <= 0x77)
            ||| last == code && (code == 0x75 || code == 0x76)
        },
{
}

/// The header, the properties and a sequence are lists, annotations, application properties and
/// the footer are maps, data is binary, and a value is whatever it is. Other descriptors describe
/// no section.
pub proof fn law_sections_hold_their_kind(code: nat, format: u8)
    ensures
        ({
            let list = format == 0x45 || format == 0xc0 || format == 0xd0;
            let map = format == 0xc1 || format == 0xd1;
            let binary = format == 0xa0 || format == 0xb0;
            message::body_allowed(code, format) <==> {
                ||| list && (code == 0x70 || code == 0x73 || code == 0x76)
                ||| map && (code == 0x71 || code == 0x72 || code == 0x74 || code == 0x78)
                ||| binary && code == 0x75
                ||| code == 0x77
            }
        }),
{
}

/// A section in front of others: all are allowed exactly if this one may stand there, holds a body
/// of its kind, and the others may stand after it. Nothing at all is allowed too.
pub proof fn law_sections_may_be_put_in_front(
    section: Seq<u8>,
    rest: Seq<u8>,
    nodes: nat,
    previous: Option<nat>,
)
    requires
        message::first_section(section, nodes).error is None,
        message::first_section(section, nodes).used == section.len(),
    ensures
        message::sections_allowed(Seq::empty(), nodes, previous),
        message::described(section) is None ==> !message::sections_allowed(
            section + rest,
            nodes,
            previous,
        ),
        message::described(section) matches Some((code, body)) ==> (message::sections_allowed(
            section + rest,
            nodes,
            previous,
        ) <==> {
            &&& message::may_follow(previous, code)
            &&& body.len() > 0
            &&& message::body_allowed(code, body[0])
            &&& message::sections_allowed(
                rest,
                message::first_section(section, nodes).nodes,
                Some(code),
            )
        }),
{
    let limits = admission::default_limits();
    admission::lemma_value_takes(section, nodes, limits, 0);
    admission_laws::law_decisions_are_final(section, rest, nodes, limits, 0);
    assert((section + rest).take(section.len() as int) =~= section);
    assert((section + rest).skip(section.len() as int) =~= rest);
}

/// Bytes that no value begins with are no sections.
pub proof fn law_refused_bytes_are_no_sections(
    bytes: Seq<u8>,
    nodes: nat,
    previous: Option<nat>,
)
    requires
        bytes.len() > 0,
        message::first_section(bytes, nodes).error is Some,
    ensures
        !message::sections_allowed(bytes, nodes, previous),
{
}

/// A message is valid exactly if its sections are allowed from the start, with nothing before them
/// and no nodes counted.
pub proof fn law_messages_are_their_sections(bytes: Seq<u8>, nodes: nat)
    ensures
        message::valid_message(bytes) == message::sections_allowed(bytes, 0, None),
        message::first_section(bytes, nodes) == admission::value(
            bytes,
            nodes,
            admission::default_limits(),
            0,
        ),
{
}

/// A whole section in front adds one to the section at which received bytes end, and leaves the
/// byte within that section. Where nothing is left the position is the start of the next section,
/// and where the bytes are no whole section yet it is their end.
pub proof fn law_positions_count_sections(section: Seq<u8>, rest: Seq<u8>, number: nat)
    requires
        message::whole_section(section) == Some(section.len()),
        number < u32::MAX,
    ensures
        message::position_after(section + rest, number) == message::position_after(
            rest,
            number + 1,
        ),
        message::position_after(Seq::empty(), number) == Ok::<(nat, nat), Error>((number, 0)),
        rest.len() > 0 && admission::extent(rest) == Err::<nat, AdmissionError>(
            AdmissionError::Incomplete,
        ) ==> message::position_after(rest, number) == Ok::<(nat, nat), Error>(
            (number, rest.len()),
        ),
        rest.len() > 0 && admission::extent(rest) == Err::<nat, AdmissionError>(
            AdmissionError::Invalid,
        ) ==> message::position_after(rest, number) is Err,
        rest.len() > 0 && admission::extent(rest) == Err::<nat, AdmissionError>(
            AdmissionError::Limit,
        ) ==> message::position_after(rest, number) is Err,
        rest.len() > 0 && admission::extent(rest) is Ok && message::whole_section(rest) is None
            ==> message::position_after(rest, number) is Err,
        message::position(rest) == message::position_after(rest, 0),
{
    lemma_section_in_front(section, rest);
}

/// A resumption point lies one section further on where a whole section stands in front, and no
/// further than the bytes and the section that it lies in.
pub proof fn law_places_count_sections(
    section: Seq<u8>,
    rest: Seq<u8>,
    number: nat,
    offset: nat,
)
    requires
        message::whole_section(section) == Some(section.len()),
    ensures
        message::place(section + rest, number + 1, offset) == (match message::place(
            rest,
            number,
            offset,
        ) {
            Ok(index) => Ok::<nat, Error>(section.len() + index),
            Err(error) => Err(error),
        }),
        message::place(section + rest, 0, offset) == (if offset <= section.len() {
            Ok::<nat, Error>(offset)
        } else {
            Err(Error::InvalidValue)
        }),
        admission::extent(rest) is Err ==> message::place(rest, 0, offset) == (if offset
            <= rest.len() {
            Ok::<nat, Error>(offset)
        } else {
            Err(Error::InvalidValue)
        }),
        message::whole_section(rest) is None ==> message::place(rest, number + 1, offset) is Err,
{
    lemma_section_in_front(section, rest);
}

proof fn lemma_section_in_front(section: Seq<u8>, rest: Seq<u8>)
    requires
        message::whole_section(section) == Some(section.len()),
    ensures
        message::whole_section(section + rest) == Some(section.len()),
        admission::extent(section + rest) == Ok::<nat, AdmissionError>(section.len()),
        section.len() > 0,
        (section + rest).skip(section.len() as int) == rest,
{
    let limits = admission::default_limits();
    admission::lemma_value_takes(section, 0, limits, 0);
    admission_laws::law_decisions_are_final(section, rest, 0, limits, 0);
    assert((section + rest).take(section.len() as int) =~= section);
    assert((section + rest).skip(section.len() as int) =~= rest);
    assert(section.take(section.len() as int) =~= section);
}

/// A section stands whole in front of bytes exactly if they begin with an admitted value that has
/// a section descriptor or any numeric one.
pub proof fn law_whole_sections(bytes: Seq<u8>)
    ensures
        message::whole_section(bytes) is Some <==> {
            &&& admission::extent(bytes) is Ok
            &&& message::described(bytes.take(admission::extent(bytes)->Ok_0 as int)) is Some
        },
        message::whole_section(bytes) is Some ==> message::whole_section(bytes)->0
            == admission::extent(bytes)->Ok_0,
{
}

/// Only bytes that begin with a descriptor describe anything: a mark of zero, and a number or a
/// symbol that is there in full.
pub proof fn law_undescribed_bytes(bytes: Seq<u8>)
    ensures
        message::described(bytes) is Some ==> {
            &&& bytes.len() >= 3
            &&& bytes[0] == 0
            &&& bytes[1] == 0x53 || bytes[1] == 0x80 || bytes[1] == 0xa3 || bytes[1] == 0xb3
        },
        bytes.len() >= 2 && bytes[0] == 0 && bytes[1] == 0x53 && bytes.len() < 3
            ==> message::described(bytes) is None,
        bytes.len() >= 2 && bytes[0] == 0 && bytes[1] == 0x80 && bytes.len() < 10
            ==> message::described(bytes) is None,
{
}

} // verus!
