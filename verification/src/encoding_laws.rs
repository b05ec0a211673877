//! What encodings are admitted, form by form: plain values, described ones, lists, maps and arrays.

use vstd::prelude::*;

use crate::admission::{self, AdmissionError, Limits, Scanned};
use crate::admission_laws;

verus! {

/// The format codes of fixed width: those whose upper half tells the width of what follows.
pub open spec fn is_fixed(code: u8) -> bool {
    ||| 0x40 <= code <= 0x45
    ||| 0x50 <= code <= 0x56
    ||| 0x60 <= code <= 0x61
    ||| 0x70 <= code <= 0x74
    ||| 0x80 <= code <= 0x84
    ||| code == 0x94
    ||| code == 0x98
}

/// The format codes of binary, string and symbol, with one byte of length or with four.
pub open spec fn has_length(code: u8) -> bool {
    &&& 0xa0 <= code <= 0xbf
    &&& code % 16 == 0 || code % 16 == 1 || code % 16 == 3
}

/// The format codes of list, map and array, with one byte of size and count or with four.
pub open spec fn has_elements(code: u8) -> bool {
    &&& code >= 0xc0
    &&& code % 16 == 0 || code % 16 == 1 && code < 0xe0
}

/// A format code says in its upper half how it goes on. Codes of fixed width take nothing, or as
/// many bytes as double with each next half; lengths and sizes have one byte or four. No other
/// codes there are.
pub proof fn law_format_codes(code: u8)
    ensures
        admission::fixed_width(code) is Some <==> is_fixed(code),
        is_fixed(code) ==> admission::fixed_width(code)->0 == (if code < 0x50 {
            0
        } else if code < 0x60 {
            1
        } else if code < 0x70 {
            2
        } else if code < 0x80 {
            4
        } else if code < 0x90 {
            8
        } else {
            16int
        }),
        admission::is_variable(code) <==> has_length(code),
        admission::is_compound(code) <==> has_elements(code),
        admission::is_array(code) <==> has_elements(code) && code >= 0xe0,
        admission::is_map(code) <==> has_elements(code) && code % 16 == 1,
        admission::is_format_code(code) <==> is_fixed(code) || has_length(code) || has_elements(
            code,
        ),
        has_length(code) || has_elements(code) ==> admission::length_width(code) == (if code / 16
            == 0xa || code / 16 == 0xc || code / 16 == 0xe {
            1
        } else {
            4int
        }),
        admission::is_descriptor_code(code) <==> code == 0x44 || code == 0x53 || code == 0x80
            || code == 0xa3 || code == 0xb3,
{
}

/// The contents of most codes may be anything. A boolean is zero or one, a character is a Unicode
/// scalar value, a string is UTF-8 and a symbol is ASCII.
pub proof fn law_contents_by_code(code: u8, bytes: Seq<u8>)
    ensures
        code != 0x56 && code != 0x73 && code != 0xa1 && code != 0xb1 && code != 0xa3 && code
            != 0xb3 ==> admission::content_allowed(code, bytes),
        admission::content_allowed(0x56, bytes) <==> bytes[0] == 0 || bytes[0] == 1,
        admission::content_allowed(0x73, bytes) <==> admission::big_endian(bytes) <= 0x10FFFF && !(
        0xD800 <= admission::big_endian(bytes) <= 0xDFFF),
        admission::content_allowed(0xa1, bytes) <==> vstd::utf8::valid_utf8(bytes),
        admission::content_allowed(0xb1, bytes) <==> vstd::utf8::valid_utf8(bytes),
        admission::content_allowed(0xa3, bytes) <==> forall|i: int|
            0 <= i < bytes.len() ==> #[trigger] bytes[i] <= 127,
        admission::content_allowed(0xb3, bytes) <==> forall|i: int|
            0 <= i < bytes.len() ==> #[trigger] bytes[i] <= 127,
{
}

/// The codec allows sixty-four levels and a hundred and twenty-eight times 1024 nodes.
pub proof fn law_codec_limits()
    ensures
        admission::default_limits().depth == 64,
        admission::default_limits().nodes == 128 * 1024,
{
}

/// The digits of a number stand for it, the first one for the most.
pub proof fn law_digits(bytes: Seq<u8>, digit: u8)
    ensures
        admission::big_endian(Seq::empty()) == 0,
        admission::big_endian(bytes.push(digit)) == admission::big_endian(bytes) * 256 + digit,
{
    assert(bytes.push(digit).drop_last() =~= bytes);
}

/// Whether one more node at a depth stays within limits.
pub open spec fn has_room(nodes: nat, limits: Limits, depth: nat) -> bool {
    depth <= limits.depth && nodes + 1 <= limits.nodes
}

/// A value of fixed width is admitted, whatever follows, exactly if its contents are allowed. It
/// takes its code and its width, and counts one node.
pub proof fn law_fixed_values(
    code: u8,
    content: Seq<u8>,
    rest: Seq<u8>,
    nodes: nat,
    limits: Limits,
    depth: nat,
)
    requires
        is_fixed(code),
        admission::fixed_width(code) == Some(content.len()),
        has_room(nodes, limits, depth),
    ensures
        ({
            let scanned = admission::value(seq![code] + content + rest, nodes, limits, depth);
            &&& scanned.used == 1 + content.len()
            &&& scanned.nodes == nodes + 1
            &&& admission::content_allowed(code, content) ==> scanned.error is None
            &&& !admission::content_allowed(code, content) ==> scanned.error == Some(
                AdmissionError::Invalid,
            )
        }),
{
    let bytes = seq![code] + content + rest;
    assert(bytes[0] == code);
    assert(bytes.skip(1).take(content.len() as int) =~= content);
}

/// A binary, string or symbol is admitted, whatever follows, exactly if its contents are allowed.
/// It takes its code, its length and as many bytes as that says, and counts one node.
pub proof fn law_variable_values(
    code: u8,
    length: Seq<u8>,
    content: Seq<u8>,
    rest: Seq<u8>,
    nodes: nat,
    limits: Limits,
    depth: nat,
)
    requires
        has_length(code),
        length.len() == admission::length_width(code),
        admission::big_endian(length) == content.len(),
        has_room(nodes, limits, depth),
    ensures
        ({
            let bytes = seq![code] + length + content + rest;
            let scanned = admission::value(bytes, nodes, limits, depth);
            &&& scanned.used == 1 + length.len() + content.len()
            &&& scanned.nodes == nodes + 1
            &&& admission::content_allowed(code, content) ==> scanned.error is None
            &&& !admission::content_allowed(code, content) ==> scanned.error == Some(
                AdmissionError::Invalid,
            )
        }),
{
    let bytes = seq![code] + length + content + rest;
    law_format_codes(code);
    assert(bytes[0] == code);
    assert(bytes.skip(1).take(length.len() as int) =~= length);
    assert(bytes.skip(1).subrange(
        length.len() as int,
        (length.len() + content.len()) as int,
    ) =~= content);
}

/// What begins with no format code is invalid, and nothing at all is incomplete.
pub proof fn law_unknown_codes(
    code: u8,
    rest: Seq<u8>,
    nodes: nat,
    limits: Limits,
    depth: nat,
)
    requires
        depth <= limits.depth,
        code != 0,
        !is_fixed(code),
        !has_length(code),
        !has_elements(code),
    ensures
        admission::value(seq![code] + rest, nodes, limits, depth).error == Some(
            AdmissionError::Invalid,
        ),
        admission::value(Seq::empty(), nodes, limits, depth).error == Some(
            AdmissionError::Incomplete,
        ),
{
    law_format_codes(code);
    assert((seq![code] + rest)[0] == code);
}

/// Every value needs room for its node and its level: where there is none, a value that begins
/// with a format code exceeds the limits, whatever its bytes are.
pub proof fn law_values_need_room(
    code: u8,
    rest: Seq<u8>,
    nodes: nat,
    limits: Limits,
    depth: nat,
)
    requires
        is_fixed(code) || has_length(code) || has_elements(code),
        !has_room(nodes, limits, depth),
        nodes < usize::MAX,
    ensures
        admission::value(seq![code] + rest, nodes, limits, depth).error == Some(
            AdmissionError::Limit,
        ),
{
    law_format_codes(code);
    assert((seq![code] + rest)[0] == code);
}

/// A described value is its descriptor and the value, one level down: it is admitted exactly if
/// the value is, after the node of the descriptor. A descriptor is a number or a symbol; anything
/// else in its place is invalid.
pub proof fn law_described_values(
    descriptor: Seq<u8>,
    described: Seq<u8>,
    nodes: nat,
    limits: Limits,
    depth: nat,
)
    requires
        depth <= limits.depth,
        descriptor.len() > 0,
    ensures
        ({
            let whole = admission::value(seq![0u8] + descriptor + described, nodes, limits, depth);
            let named = admission::value(descriptor, nodes, limits, depth + 1);
            let inner = admission::value(described, nodes + 1, limits, depth + 1);
            &&& !admission::is_descriptor_code(descriptor[0]) ==> whole.error == Some(
                AdmissionError::Invalid,
            )
            &&& admission::is_descriptor_code(descriptor[0]) && named.error is None && named.used
                == descriptor.len() ==> {
                &&& whole.error == inner.error
                &&& whole.nodes == inner.nodes
                &&& whole.used == 1 + descriptor.len() + inner.used
            }
        }),
{
    let bytes = seq![0u8] + descriptor + described;
    let code = descriptor[0];
    assert(bytes[0] == 0 && bytes[1] == code);
    if admission::is_descriptor_code(code) {
        let named = admission::value(descriptor, nodes, limits, depth + 1);
        if named.error is None && named.used == descriptor.len() {
            let own = descriptor.skip(1);
            let leaf = admission::leaf(own, code, nodes, limits, depth + 1);
            assert(descriptor.skip(1) =~= own);
            assert(named.used == 1 + leaf.used);
            assert(bytes.skip(2) =~= own + described);
            lemma_leaf_ignores_the_rest(own, described, code, nodes, limits, depth + 1);
            let taken = (2 + leaf.used) as int;
            let head = admission::constructor(described, nodes + 1, limits, depth + 1);
            assert(bytes.skip(taken) =~= described);
            admission::lemma_constructor_takes(described, nodes + 1, limits, depth + 1);
            assert(bytes.skip(taken + head.scanned.used) =~= described.skip(
                head.scanned.used as int,
            ));
        }
    }
}

proof fn lemma_leaf_ignores_the_rest(
    bytes: Seq<u8>,
    rest: Seq<u8>,
    code: u8,
    nodes: nat,
    limits: Limits,
    depth: nat,
)
    requires
        admission::leaf(bytes, code, nodes, limits, depth).error is None,
    ensures
        admission::leaf(bytes + rest, code, nodes, limits, depth) == admission::leaf(
            bytes,
            code,
            nodes,
            limits,
            depth,
        ),
        admission::leaf(bytes, code, nodes, limits, depth).nodes == nodes + 1,
{
    if let Some(width) = admission::fixed_width(code) {
        assert((bytes + rest).take(width as int) =~= bytes.take(width as int));
    } else {
        let width = admission::length_width(code);
        let length = admission::big_endian(bytes.take(width as int));
        assert((bytes + rest).take(width as int) =~= bytes.take(width as int));
        assert((bytes + rest).subrange(width as int, (width + length) as int) =~= bytes.subrange(
            width as int,
            (width + length) as int,
        ));
    }
}

/// Whether the bytes are one value that is admitted by itself at a depth.
pub open spec fn stands_alone_at(bytes: Seq<u8>, limits: Limits, depth: nat) -> bool {
    let scanned = admission::value(bytes, 0, limits, depth);
    scanned.error is None && scanned.used == bytes.len()
}

/// The nodes of values that are each counted by itself at a depth.
pub open spec fn nodes_apart_at(values: Seq<Seq<u8>>, limits: Limits, depth: nat) -> nat
    decreases values.len(),
{
    if values.len() == 0 {
        0
    } else {
        admission::value(values.first(), 0, limits, depth).nodes + nodes_apart_at(
            values.drop_first(),
            limits,
            depth,
        )
    }
}

proof fn lemma_elements(
    values: Seq<Seq<u8>>,
    more: Seq<u8>,
    nodes: nat,
    limits: Limits,
    depth: nat,
)
    requires
        forall|i: int| 0 <= i < values.len() ==> stands_alone_at(#[trigger] values[i], limits, depth),
        nodes + nodes_apart_at(values, limits, depth) <= limits.nodes,
    ensures
        admission::elements(values.flatten() + more, values.len(), nodes, limits, depth) == (
        Scanned {
            used: values.flatten().len(),
            nodes: nodes + nodes_apart_at(values, limits, depth),
            error: None,
        }),
        values.len() <= nodes_apart_at(values, limits, depth),
    decreases values.len(),
{
    let bytes = values.flatten() + more;
    if values.len() > 0 {
        let first = values.first();
        let others = values.drop_first();
        let rest = others.flatten() + more;
        assert(stands_alone_at(values[0], limits, depth));
        assert forall|i: int| 0 <= i < others.len() implies stands_alone_at(
            #[trigger] others[i],
            limits,
            depth,
        ) by {
            assert(others[i] == values[i + 1]);
        }
        let alone = admission::value(first, 0, limits, depth);
        admission_laws::law_admitted_values_fit_the_budget(first, 0, limits, depth);
        lemma_elements(others, more, nodes + alone.nodes, limits, depth);
        admission_laws::law_admitted_values_may_move(
            first,
            0,
            nodes,
            limits,
            limits,
            depth,
            depth,
        );
        admission_laws::law_decisions_are_final(first, rest, nodes, limits, depth);
        assert(bytes =~= first + rest);
        assert(bytes.skip(first.len() as int) =~= rest);
    }
}

/// A list or a map of values: its size, its count and the values, and what else its size covers.
pub open spec fn compound(
    code: u8,
    size: Seq<u8>,
    count: Seq<u8>,
    values: Seq<Seq<u8>>,
    more: Seq<u8>,
) -> Seq<u8> {
    seq![code] + size + count + (values.flatten() + more)
}

/// A list of values that are each admitted one level down is admitted, as far as the nodes of all
/// and its own fit, and so is a map of keys and values. Their size has to cover the values exactly:
/// with more bytes they are invalid, and so is a map of an odd number.
pub proof fn law_lists_and_maps(
    code: u8,
    size: Seq<u8>,
    count: Seq<u8>,
    values: Seq<Seq<u8>>,
    more: Seq<u8>,
    nodes: nat,
    limits: Limits,
    depth: nat,
)
    requires
        has_elements(code),
        code < 0xe0,
        size.len() == admission::length_width(code),
        count.len() == admission::length_width(code),
        admission::big_endian(size) == count.len() + values.flatten().len() + more.len(),
        admission::big_endian(count) == values.len(),
        depth <= limits.depth,
        forall|i: int|
            0 <= i < values.len() ==> stands_alone_at(#[trigger] values[i], limits, depth + 1),
        nodes + 1 + nodes_apart_at(values, limits, depth + 1) <= limits.nodes,
    ensures
        ({
            let bytes = compound(code, size, count, values, more);
            let scanned = admission::value(bytes, nodes, limits, depth);
            let odd_map = code % 16 == 1 && values.len() % 2 != 0;
            &&& scanned.used == bytes.len()
            &&& scanned.error is None <==> more.len() == 0 && !odd_map
            &&& scanned.error is None ==> scanned.nodes == nodes + 1 + nodes_apart_at(
                values,
                limits,
                depth + 1,
            )
            &&& scanned.error is Some ==> scanned.error == Some(AdmissionError::Invalid)
        }),
{
    let bytes = compound(code, size, count, values, more);
    let body = bytes.skip(1);
    let width = size.len() as int;
    let filled = values.flatten() + more;
    let inner = body.subrange(width, width + width + filled.len());
    law_format_codes(code);
    assert(bytes[0] == code);
    assert(body.take(width) =~= size);
    assert(inner.take(width) =~= count);
    assert(inner.skip(width) =~= filled);
    lemma_elements(values, more, nodes + 1, limits, depth + 1);
}

/// The elements of an array, each behind the constructor that they share.
pub open spec fn behind(code: u8, items: Seq<Seq<u8>>) -> Seq<Seq<u8>> {
    items.map_values(|item: Seq<u8>| seq![code] + item)
}

proof fn lemma_repeated(
    code: u8,
    items: Seq<Seq<u8>>,
    more: Seq<u8>,
    nodes: nat,
    limits: Limits,
    depth: nat,
)
    requires
        code != 0,
        forall|i: int|
            0 <= i < items.len() ==> stands_alone_at(seq![code] + #[trigger] items[i], limits, depth),
        nodes + nodes_apart_at(behind(code, items), limits, depth) <= limits.nodes,
    ensures
        admission::repeated(items.flatten() + more, code, items.len(), nodes, limits, depth) == (
        Scanned {
            used: items.flatten().len(),
            nodes: nodes + nodes_apart_at(behind(code, items), limits, depth),
            error: None,
        }),
        items.len() <= nodes_apart_at(behind(code, items), limits, depth),
    decreases items.len(),
{
    let bytes = items.flatten() + more;
    if items.len() > 0 {
        let first = items.first();
        let others = items.drop_first();
        let rest = others.flatten() + more;
        let whole = seq![code] + first;
        assert(stands_alone_at(seq![code] + items[0], limits, depth));
        assert forall|i: int| 0 <= i < others.len() implies stands_alone_at(
            seq![code] + #[trigger] others[i],
            limits,
            depth,
        ) by {
            assert(others[i] == items[i + 1]);
        }
        assert(behind(code, items).first() == whole);
        assert(behind(code, items).drop_first() =~= behind(code, others));
        let alone = admission::value(whole, 0, limits, depth);
        admission_laws::law_admitted_values_fit_the_budget(whole, 0, limits, depth);
        lemma_repeated(code, others, more, nodes + alone.nodes, limits, depth);
        admission_laws::law_admitted_values_may_move(
            whole,
            0,
            nodes,
            limits,
            limits,
            depth,
            depth,
        );
        admission_laws::law_decisions_are_final(whole, rest, nodes, limits, depth);
        assert(bytes =~= first + rest);
        assert((whole + rest)[0] == code);
        assert((whole + rest).skip(1) =~= bytes);
        assert(bytes.skip(first.len() as int) =~= rest);
    }
}

/// An array of values that share a constructor is admitted if each value would be, behind that
/// constructor and one level down, as far as the nodes of all and its own fit. Its size has to
/// cover them exactly, and the constructor is not that of the null value.
pub proof fn law_arrays(
    code: u8,
    size: Seq<u8>,
    count: Seq<u8>,
    shared: u8,
    items: Seq<Seq<u8>>,
    more: Seq<u8>,
    nodes: nat,
    limits: Limits,
    depth: nat,
)
    requires
        code == 0xe0 || code == 0xf0,
        size.len() == admission::length_width(code),
        count.len() == admission::length_width(code),
        admission::big_endian(size) == count.len() + 1 + items.flatten().len() + more.len(),
        admission::big_endian(count) == items.len(),
        is_fixed(shared) || has_length(shared) || has_elements(shared),
        depth < limits.depth,
        forall|i: int|
            0 <= i < items.len() ==> stands_alone_at(
                seq![shared] + #[trigger] items[i],
                limits,
                depth + 1,
            ),
        nodes + 1 + nodes_apart_at(behind(shared, items), limits, depth + 1) <= limits.nodes,
    ensures
        ({
            let bytes = seq![code] + size + count + (seq![shared] + (items.flatten() + more));
            let scanned = admission::value(bytes, nodes, limits, depth);
            &&& scanned.used == bytes.len()
            &&& scanned.error is None <==> more.len() == 0 && shared != 0x40
            &&& scanned.error is None ==> scanned.nodes == nodes + 1 + nodes_apart_at(
                behind(shared, items),
                limits,
                depth + 1,
            )
            &&& scanned.error is Some ==> scanned.error == Some(AdmissionError::Invalid)
        }),
{
    let filled = items.flatten() + more;
    let rest = seq![shared] + filled;
    let bytes = seq![code] + size + count + rest;
    let body = bytes.skip(1);
    let width = size.len() as int;
    let inner = body.subrange(width, width + width + rest.len());
    law_format_codes(code);
    law_format_codes(shared);
    assert(bytes[0] == code);
    assert(body.take(width) =~= size);
    assert(inner.take(width) =~= count);
    assert(inner.skip(width) =~= rest);
    assert(rest[0] == shared);
    assert(rest.skip(1) =~= filled);
    lemma_repeated(shared, items, more, nodes + 1, limits, depth + 1);
}

/// A list, a map or an array whose size or count is not there yet, or whose size covers bytes that
/// are not there yet, is incomplete.
pub proof fn law_compounds_wait_for_their_bytes(
    code: u8,
    size: Seq<u8>,
    there: Seq<u8>,
    nodes: nat,
    limits: Limits,
    depth: nat,
)
    requires
        has_elements(code),
        size.len() == admission::length_width(code),
        there.len() < admission::big_endian(size),
        has_room(nodes, limits, depth),
    ensures
        admission::value(seq![code] + size + there, nodes, limits, depth).error == Some(
            AdmissionError::Incomplete,
        ),
{
    let bytes = seq![code] + size + there;
    law_format_codes(code);
    assert(bytes[0] == code);
    assert(bytes.skip(1).take(size.len() as int) =~= size);
}

/// A count that goes beyond the nodes that are left exceeds the limits before any element is
/// looked at, whatever the elements are. In a map it has to be even first.
pub proof fn law_counts_are_checked_first(
    code: u8,
    size: Seq<u8>,
    count: Seq<u8>,
    rest: Seq<u8>,
    nodes: nat,
    limits: Limits,
    depth: nat,
)
    requires
        has_elements(code),
        size.len() == admission::length_width(code),
        count.len() == admission::length_width(code),
        admission::big_endian(size) == count.len() + rest.len(),
        has_room(nodes, limits, depth),
        admission::big_endian(count) + nodes + 1 > limits.nodes,
    ensures
        admission::value(seq![code] + size + count + rest, nodes, limits, depth).error == Some(
            if code < 0xe0 && code % 16 == 1 && admission::big_endian(count) % 2 != 0 {
                AdmissionError::Invalid
            } else {
                AdmissionError::Limit
            },
        ),
{
    let bytes = seq![code] + size + count + rest;
    let body = bytes.skip(1);
    let width = size.len() as int;
    let inner = body.subrange(width, width + width + rest.len());
    law_format_codes(code);
    assert(bytes[0] == code);
    assert(body.take(width) =~= size);
    assert(inner.take(width) =~= count);
}

/// A list with an element that is refused is refused: as exceeding the limits if the element does,
/// and else as invalid, though more bytes would complete the element.
pub proof fn law_refused_elements_refuse_the_list(
    code: u8,
    size: Seq<u8>,
    count: Seq<u8>,
    values: Seq<Seq<u8>>,
    refused: Seq<u8>,
    nodes: nat,
    limits: Limits,
    depth: nat,
)
    requires
        code == 0xc0 || code == 0xd0,
        size.len() == admission::length_width(code),
        count.len() == admission::length_width(code),
        admission::big_endian(size) == count.len() + values.flatten().len() + refused.len(),
        admission::big_endian(count) == values.len() + 1,
        depth <= limits.depth,
        forall|i: int|
            0 <= i < values.len() ==> stands_alone_at(#[trigger] values[i], limits, depth + 1),
        nodes + 2 + nodes_apart_at(values, limits, depth + 1) <= limits.nodes,
        admission::value(
            refused,
            nodes + 1 + nodes_apart_at(values, limits, depth + 1),
            limits,
            depth + 1,
        ).error is Some,
    ensures
        ({
            let bytes = compound(code, size, count, values, refused);
            let error = admission::value(
                refused,
                nodes + 1 + nodes_apart_at(values, limits, depth + 1),
                limits,
                depth + 1,
            ).error;
            admission::value(bytes, nodes, limits, depth).error == Some(
                if error == Some(AdmissionError::Limit) {
                    AdmissionError::Limit
                } else {
                    AdmissionError::Invalid
                },
            )
        }),
{
    let bytes = compound(code, size, count, values, refused);
    let body = bytes.skip(1);
    let width = size.len() as int;
    let filled = values.flatten() + refused;
    let inner = body.subrange(width, width + width + filled.len());
    law_format_codes(code);
    assert(bytes[0] == code);
    assert(body.take(width) =~= size);
    assert(inner.take(width) =~= count);
    assert(inner.skip(width) =~= filled);
    lemma_elements(values, refused, nodes + 1, limits, depth + 1);
    lemma_refused_element(values, refused, nodes + 1, limits, depth + 1);
}

#[verifier::rlimit(50)]
proof fn lemma_refused_element(
    values: Seq<Seq<u8>>,
    refused: Seq<u8>,
    nodes: nat,
    limits: Limits,
    depth: nat,
)
    requires
        forall|i: int| 0 <= i < values.len() ==> stands_alone_at(#[trigger] values[i], limits, depth),
        nodes + nodes_apart_at(values, limits, depth) <= limits.nodes,
        admission::value(
            refused,
            nodes + nodes_apart_at(values, limits, depth),
            limits,
            depth,
        ).error is Some,
    ensures
        admission::elements(
            values.flatten() + refused,
            values.len() + 1,
            nodes,
            limits,
            depth,
        ).error == admission::value(
            refused,
            nodes + nodes_apart_at(values, limits, depth),
            limits,
            depth,
        ).error,
    decreases values.len(),
{
    let bytes = values.flatten() + refused;
    if values.len() == 0 {
        assert(bytes =~= refused);
    } else {
        let first = values.first();
        let others = values.drop_first();
        let rest = others.flatten() + refused;
        assert(stands_alone_at(values[0], limits, depth));
        assert forall|i: int| 0 <= i < others.len() implies stands_alone_at(
            #[trigger] others[i],
            limits,
            depth,
        ) by {
            assert(others[i] == values[i + 1]);
        }
        let alone = admission::value(first, 0, limits, depth);
        assert(nodes + nodes_apart_at(values, limits, depth) == nodes + alone.nodes
            + nodes_apart_at(others, limits, depth));
        lemma_refused_element(others, refused, nodes + alone.nodes, limits, depth);
        admission_laws::law_admitted_values_may_move(
            first,
            0,
            nodes,
            limits,
            limits,
            depth,
            depth,
        );
        admission_laws::law_decisions_are_final(first, rest, nodes, limits, depth);
        assert(bytes =~= first + rest);
        assert(bytes.skip(first.len() as int) =~= rest);
        assert(admission::value(bytes, nodes, limits, depth).nodes == nodes + alone.nodes);
        assert(admission::value(bytes, nodes, limits, depth).error is None);
        assert(((values.len() + 1) as nat - 1) as nat == others.len() + 1);
    }
}

} // verus!
