//! What holds of admission for every encoding.

use vstd::prelude::*;

use crate::admission;
use crate::admission::{AdmissionError, Limits, Scanned};

verus! {

proof fn lemma_leaf_stable(
    bytes: Seq<u8>,
    more: Seq<u8>,
    code: u8,
    nodes: nat,
    limits: Limits,
    depth: nat,
)
    requires
        admission::leaf(bytes, code, nodes, limits, depth).error != Some(AdmissionError::Incomplete),
    ensures
        admission::leaf(bytes + more, code, nodes, limits, depth) == admission::leaf(bytes, code, nodes, limits, depth),
{
    lemma_prefix_kept(bytes, more);
}

proof fn lemma_prefix_kept(bytes: Seq<u8>, more: Seq<u8>)
    ensures
        forall|n: int| 0 <= n <= bytes.len() ==> #[trigger] (bytes + more).take(n) == bytes.take(n),
        forall|a: int, b: int|
            0 <= a <= b <= bytes.len() ==> #[trigger] (bytes + more).subrange(a, b)
                == bytes.subrange(a, b),
        forall|n: int|
            0 <= n <= bytes.len() ==> #[trigger] (bytes + more).skip(n) == bytes.skip(n) + more,
{
    assert forall|n: int| 0 <= n <= bytes.len() implies #[trigger] (bytes + more).take(n)
        == bytes.take(n) by {
        assert((bytes + more).take(n) =~= bytes.take(n));
    }
    assert forall|a: int, b: int| 0 <= a <= b <= bytes.len() implies #[trigger] (bytes
        + more).subrange(a, b) == bytes.subrange(a, b) by {
        assert((bytes + more).subrange(a, b) =~= bytes.subrange(a, b));
    }
    assert forall|n: int| 0 <= n <= bytes.len() implies #[trigger] (bytes + more).skip(n)
        == bytes.skip(n) + more by {
        assert((bytes + more).skip(n) =~= bytes.skip(n) + more);
    }
}

proof fn lemma_constructor_stable(
    bytes: Seq<u8>,
    more: Seq<u8>,
    nodes: nat,
    limits: Limits,
    depth: nat,
)
    requires
        admission::constructor(bytes, nodes, limits, depth).scanned.error != Some(AdmissionError::Incomplete),
    ensures
        admission::constructor(bytes + more, nodes, limits, depth) == admission::constructor(
            bytes,
            nodes,
            limits,
            depth,
        ),
    decreases admission::room(limits, depth),
{
    if depth <= limits.depth && bytes.len() >= 2 && bytes[0] == 0 {
        lemma_prefix_kept(bytes, more);
        let descriptor = admission::leaf(bytes.skip(2), bytes[1], nodes, limits, depth + 1);
        let taken = 2 + descriptor.used;
        if admission::is_descriptor_code(bytes[1]) {
            lemma_leaf_stable(bytes.skip(2), more, bytes[1], nodes, limits, depth + 1);
            if descriptor.error is None {
                lemma_constructor_stable(
                    bytes.skip(taken as int),
                    more,
                    descriptor.nodes,
                    limits,
                    depth + 1,
                );
            }
        }
    }
}

proof fn lemma_leaf_own(bytes: Seq<u8>, kept: int, code: u8, nodes: nat, limits: Limits, depth: nat)
    requires
        admission::leaf(bytes, code, nodes, limits, depth).error is None,
        admission::leaf(bytes, code, nodes, limits, depth).used <= kept <= bytes.len(),
    ensures
        admission::leaf(bytes.take(kept), code, nodes, limits, depth) == admission::leaf(
            bytes,
            code,
            nodes,
            limits,
            depth,
        ),
{
    assert(bytes =~= bytes.take(kept) + bytes.skip(kept));
    lemma_prefix_kept(bytes.take(kept), bytes.skip(kept));
}

proof fn lemma_constructor_own(bytes: Seq<u8>, kept: int, nodes: nat, limits: Limits, depth: nat)
    requires
        admission::constructor(bytes, nodes, limits, depth).scanned.error is None,
        admission::constructor(bytes, nodes, limits, depth).scanned.used <= kept <= bytes.len(),
    ensures
        admission::constructor(bytes.take(kept), nodes, limits, depth) == admission::constructor(
            bytes,
            nodes,
            limits,
            depth,
        ),
    decreases admission::room(limits, depth),
{
    admission::lemma_constructor_takes(bytes, nodes, limits, depth);
    if bytes[0] == 0 {
        let descriptor = admission::leaf(bytes.skip(2), bytes[1], nodes, limits, depth + 1);
        let taken = 2 + descriptor.used;
        admission::lemma_constructor_takes(
            bytes.skip(taken as int),
            descriptor.nodes,
            limits,
            depth + 1,
        );
        assert(bytes.take(kept).skip(2) =~= bytes.skip(2).take(kept - 2));
        lemma_leaf_own(bytes.skip(2), kept - 2, bytes[1], nodes, limits, depth + 1);
        assert(bytes.take(kept).skip(taken as int) =~= bytes.skip(taken as int).take(kept - taken));
        lemma_constructor_own(
            bytes.skip(taken as int),
            kept - taken,
            descriptor.nodes,
            limits,
            depth + 1,
        );
    }
}

proof fn lemma_own_payload(bytes: Seq<u8>, code: u8, nodes: nat, limits: Limits, depth: nat)
    requires
        admission::payload(bytes, code, nodes, limits, depth).error is None,
        admission::payload(bytes, code, nodes, limits, depth).used <= bytes.len(),
    ensures
        ({
            let scanned = admission::payload(bytes, code, nodes, limits, depth);
            admission::payload(bytes.take(scanned.used as int), code, nodes, limits, depth)
                == scanned
        }),
{
    let scanned = admission::payload(bytes, code, nodes, limits, depth);
    let own = bytes.take(scanned.used as int);
    if admission::is_compound(code) {
        let width = admission::length_width(code) as int;
        assert(own.take(width) =~= bytes.take(width));
        assert(own.subrange(width, own.len() as int) =~= bytes.subrange(width, own.len() as int));
    } else {
        lemma_leaf_own(bytes, scanned.used as int, code, nodes, limits, depth);
    }
}

proof fn lemma_own_value(bytes: Seq<u8>, nodes: nat, limits: Limits, depth: nat)
    requires
        admission::value(bytes, nodes, limits, depth).error is None,
    ensures
        ({
            let scanned = admission::value(bytes, nodes, limits, depth);
            admission::value(bytes.take(scanned.used as int), nodes, limits, depth) == scanned
        }),
{
    let scanned = admission::value(bytes, nodes, limits, depth);
    let head = admission::constructor(bytes, nodes, limits, depth);
    let own = bytes.take(scanned.used as int);
    admission::lemma_value_takes(bytes, nodes, limits, depth);
    admission::lemma_constructor_takes(bytes, nodes, limits, depth);
    lemma_constructor_own(bytes, scanned.used as int, nodes, limits, depth);
    let rest = bytes.skip(head.scanned.used as int);
    let left = scanned.used - head.scanned.used;
    assert(own.skip(head.scanned.used as int) =~= rest.take(left));
    lemma_own_payload(rest, head.code, head.scanned.nodes, limits, head.depth);
}

/// A decision is final: once a value is admitted, or refused as malformed or too large, bytes
/// that follow change nothing about it. Only a request for more bytes can turn into something
/// else.
pub proof fn law_decisions_are_final(
    bytes: Seq<u8>,
    more: Seq<u8>,
    nodes: nat,
    limits: Limits,
    depth: nat,
)
    requires
        admission::value(bytes, nodes, limits, depth).error != Some(AdmissionError::Incomplete),
    ensures
        admission::value(bytes + more, nodes, limits, depth) == admission::value(bytes, nodes, limits, depth),
{
    let head = admission::constructor(bytes, nodes, limits, depth);
    lemma_constructor_stable(bytes, more, nodes, limits, depth);
    if head.scanned.error is None {
        admission::lemma_constructor_takes(bytes, nodes, limits, depth);
        lemma_prefix_kept(bytes, more);
        let rest = bytes.skip(head.scanned.used as int);
        lemma_prefix_kept(rest, more);
        if !admission::is_compound(head.code) {
            lemma_leaf_stable(rest, more, head.code, head.scanned.nodes, limits, head.depth);
        }
    }
}

/// A value that lacks its last bytes asks for more of them: it is never refused as malformed.
pub proof fn law_truncation_is_incomplete(bytes: Seq<u8>, kept: int)
    requires
        admission::extent(bytes) matches Ok(length) && 0 <= kept < length,
    ensures
        admission::extent(bytes.take(kept)) == Err::<nat, AdmissionError>(AdmissionError::Incomplete),
{
    admission::lemma_value_takes(bytes, 0, admission::default_limits(), 0);
    admission::lemma_value_takes(bytes.take(kept), 0, admission::default_limits(), 0);
    assert(bytes.take(kept) + bytes.skip(kept) =~= bytes);
    if admission::extent(bytes.take(kept)) != Err::<nat, AdmissionError>(AdmissionError::Incomplete) {
        law_decisions_are_final(bytes.take(kept), bytes.skip(kept), 0, admission::default_limits(), 0);
    }
}

/// The bytes that an admitted value takes are admitted by themselves, with the same length.
pub proof fn law_own_bytes_decide(bytes: Seq<u8>)
    requires
        admission::extent(bytes) is Ok,
    ensures
        admission::extent(bytes.take(admission::extent(bytes)->Ok_0 as int)) == admission::extent(
            bytes,
        ),
{
    admission::lemma_value_takes(bytes, 0, admission::default_limits(), 0);
    lemma_own_value(bytes, 0, admission::default_limits(), 0);
}

/// A piece of an incomplete value is incomplete too.
pub proof fn law_pieces_of_incomplete_are_incomplete(bytes: Seq<u8>, kept: int)
    requires
        admission::extent(bytes) == Err::<nat, AdmissionError>(AdmissionError::Incomplete),
        0 <= kept <= bytes.len(),
    ensures
        admission::extent(bytes.take(kept)) == Err::<nat, AdmissionError>(AdmissionError::Incomplete),
{
    assert(bytes.take(kept) + bytes.skip(kept) =~= bytes);
    if admission::extent(bytes.take(kept)) != Err::<nat, AdmissionError>(AdmissionError::Incomplete) {
        law_decisions_are_final(bytes.take(kept), bytes.skip(kept), 0, admission::default_limits(), 0);
    }
}

/// The encoded length is that of the value alone, whatever payload follows it.
pub proof fn law_extent_ignores_following_payload(bytes: Seq<u8>, payload: Seq<u8>)
    requires
        admission::extent(bytes) is Ok,
    ensures
        admission::extent(bytes + payload) == admission::extent(bytes),
{
    law_decisions_are_final(bytes, payload, 0, admission::default_limits(), 0);
}

/// How many lists are opened at the front of an encoding, one right inside the other.
pub open spec fn list_openings(bytes: Seq<u8>) -> nat
    decreases bytes.len(),
{
    if bytes.len() < 1 || !(bytes[0] == 0xc0 || bytes[0] == 0xd0) {
        0
    } else {
        let width = admission::length_width(bytes[0]) as int;
        if bytes.len() < 1 + 2 * width || admission::big_endian(
            bytes.subrange(1 + width, 1 + 2 * width),
        ) == 0 {
            0
        } else {
            1 + list_openings(bytes.skip(1 + 2 * width))
        }
    }
}

/// No value is admitted that nests deeper than its limit: not where lists are opened, one right
/// inside the other, until their elements would stand below the limit.
pub proof fn law_nesting_is_bounded(bytes: Seq<u8>, nodes: nat, limits: Limits, depth: nat)
    requires
        depth + list_openings(bytes) > limits.depth,
    ensures
        admission::value(bytes, nodes, limits, depth).error is Some,
    decreases bytes.len(),
{
    if depth <= limits.depth && admission::value(bytes, nodes, limits, depth).error is None {
        let code = bytes[0];
        let width = admission::length_width(code) as int;
        let body = bytes.skip(1);
        let size = admission::big_endian(body.take(width));
        let inner = body.subrange(width, width + size as int);
        let rest = inner.skip(width);
        let element = bytes.skip(1 + 2 * width);
        assert(inner.take(width) =~= bytes.subrange(1 + width, 1 + 2 * width));
        let first = admission::value(rest, nodes + 1, limits, depth + 1);
        assert(first.error is None);
        assert(element =~= rest + element.skip(rest.len() as int));
        law_decisions_are_final(
            rest,
            element.skip(rest.len() as int),
            nodes + 1,
            limits,
            depth + 1,
        );
        law_nesting_is_bounded(element, nodes + 1, limits, depth + 1);
    }
}

/// The first limits allow no more than the second.
pub open spec fn no_wider(small: Limits, large: Limits) -> bool {
    small.depth <= large.depth && small.nodes <= large.nodes
}

/// The same scan, begun with another number of nodes.
pub open spec fn moved(scanned: Scanned, nodes: nat, other: nat) -> Scanned {
    Scanned { nodes: (scanned.nodes - nodes + other) as nat, ..scanned }
}

/// Whether below one depth the second limits leave as many levels as the first below another.
pub open spec fn leaves_room(from: Limits, to: Limits, depth: nat, other_depth: nat) -> bool {
    other_depth + from.depth <= depth + to.depth
}

proof fn lemma_constructor_moved(
    bytes: Seq<u8>,
    nodes: nat,
    other: nat,
    from: Limits,
    to: Limits,
    depth: nat,
    other_depth: nat,
)
    requires
        leaves_room(from, to, depth, other_depth),
        admission::constructor(bytes, nodes, from, depth).scanned.error is None,
        other + (admission::constructor(bytes, nodes, from, depth).scanned.nodes - nodes)
            <= to.nodes,
    ensures
        ({
            let before = admission::constructor(bytes, nodes, from, depth);
            let after = admission::constructor(bytes, other, to, other_depth);
            &&& after.scanned == moved(before.scanned, nodes, other)
            &&& after.code == before.code
            &&& after.depth - other_depth == before.depth - depth
        }),
    decreases admission::room(from, depth),
{
    if bytes[0] == 0 {
        let descriptor = admission::leaf(bytes.skip(2), bytes[1], nodes, from, depth + 1);
        let taken = 2 + descriptor.used;
        lemma_constructor_budget(bytes.skip(taken as int), descriptor.nodes, from, depth + 1);
        lemma_constructor_moved(
            bytes.skip(taken as int),
            descriptor.nodes,
            other + 1,
            from,
            to,
            depth + 1,
            other_depth + 1,
        );
    }
}

/// An admitted value stays admitted, with the same length and as many nodes counted for it,
/// whatever was counted before it and however deep it stands, wherever the limits leave room: the
/// nodes fit, and there are as many levels below it.
pub proof fn law_admitted_values_may_move(
    bytes: Seq<u8>,
    nodes: nat,
    other: nat,
    from: Limits,
    to: Limits,
    depth: nat,
    other_depth: nat,
)
    requires
        leaves_room(from, to, depth, other_depth),
        admission::value(bytes, nodes, from, depth).error is None,
        other + (admission::value(bytes, nodes, from, depth).nodes - nodes) <= to.nodes,
    ensures
        admission::value(bytes, other, to, other_depth) == moved(
            admission::value(bytes, nodes, from, depth),
            nodes,
            other,
        ),
    decreases admission::room(from, depth), 1nat, 0nat,
{
    let head = admission::constructor(bytes, nodes, from, depth);
    let rest = bytes.skip(head.scanned.used as int);
    admission::lemma_constructor_depth(bytes, nodes, from, depth);
    lemma_constructor_budget(bytes, nodes, from, depth);
    lemma_payload_budget(rest, head.code, head.scanned.nodes, from, head.depth);
    lemma_constructor_moved(bytes, nodes, other, from, to, depth, other_depth);
    lemma_payload_moved(
        rest,
        head.code,
        head.scanned.nodes,
        (other + head.scanned.nodes - nodes) as nat,
        from,
        to,
        head.depth,
        (other_depth + head.depth - depth) as nat,
    );
}

proof fn lemma_payload_moved(
    bytes: Seq<u8>,
    code: u8,
    nodes: nat,
    other: nat,
    from: Limits,
    to: Limits,
    depth: nat,
    other_depth: nat,
)
    requires
        leaves_room(from, to, depth, other_depth),
        admission::payload(bytes, code, nodes, from, depth).error is None,
        other + (admission::payload(bytes, code, nodes, from, depth).nodes - nodes) <= to.nodes,
    ensures
        admission::payload(bytes, code, other, to, other_depth) == moved(
            admission::payload(bytes, code, nodes, from, depth),
            nodes,
            other,
        ),
    decreases admission::room(from, depth), 0nat, 0nat,
{
    lemma_payload_budget(bytes, code, nodes, from, depth);
    if admission::is_compound(code) {
        let width = admission::length_width(code);
        let size = admission::big_endian(bytes.take(width as int));
        let inner = bytes.subrange(width as int, (width + size) as int);
        lemma_contents_moved(
            inner,
            code,
            nodes + 1,
            other + 1,
            from,
            to,
            depth + 1,
            other_depth + 1,
        );
    }
}

proof fn lemma_contents_moved(
    inner: Seq<u8>,
    code: u8,
    nodes: nat,
    other: nat,
    from: Limits,
    to: Limits,
    depth: nat,
    other_depth: nat,
)
    requires
        leaves_room(from, to, depth, other_depth),
        admission::contents(inner, code, nodes, from, depth).error is None,
        other + (admission::contents(inner, code, nodes, from, depth).nodes - nodes) <= to.nodes,
    ensures
        admission::contents(inner, code, other, to, other_depth) == moved(
            admission::contents(inner, code, nodes, from, depth),
            nodes,
            other,
        ),
    decreases admission::room(from, depth), 3nat, 0nat,
{
    let width = admission::length_width(code);
    let count = admission::big_endian(inner.take(width as int));
    let rest = inner.skip(width as int);
    if admission::is_array(code) {
        let head = admission::constructor(rest, nodes, from, depth);
        let items = rest.skip(head.scanned.used as int);
        admission::lemma_constructor_depth(rest, nodes, from, depth);
        lemma_constructor_budget(rest, nodes, from, depth);
        lemma_repeated_budget(items, head.code, count, head.scanned.nodes, from, head.depth);
        lemma_constructor_moved(rest, nodes, other, from, to, depth, other_depth);
        lemma_repeated_moved(
            items,
            head.code,
            count,
            head.scanned.nodes,
            (other + head.scanned.nodes - nodes) as nat,
            from,
            to,
            head.depth,
            (other_depth + head.depth - depth) as nat,
        );
    } else {
        lemma_elements_budget(rest, count, nodes, from, depth);
        lemma_elements_moved(rest, count, nodes, other, from, to, depth, other_depth);
    }
}

proof fn lemma_elements_moved(
    bytes: Seq<u8>,
    count: nat,
    nodes: nat,
    other: nat,
    from: Limits,
    to: Limits,
    depth: nat,
    other_depth: nat,
)
    requires
        leaves_room(from, to, depth, other_depth),
        admission::elements(bytes, count, nodes, from, depth).error is None,
        other + (admission::elements(bytes, count, nodes, from, depth).nodes - nodes) <= to.nodes,
    ensures
        admission::elements(bytes, count, other, to, other_depth) == moved(
            admission::elements(bytes, count, nodes, from, depth),
            nodes,
            other,
        ),
    decreases admission::room(from, depth), 2nat, count,
{
    if count > 0 {
        let first = admission::value(bytes, nodes, from, depth);
        let rest = bytes.skip(first.used as int);
        let left = (count - 1) as nat;
        law_admitted_values_fit_the_budget(bytes, nodes, from, depth);
        lemma_elements_budget(rest, left, first.nodes, from, depth);
        law_admitted_values_may_move(bytes, nodes, other, from, to, depth, other_depth);
        lemma_elements_moved(
            rest,
            left,
            first.nodes,
            (other + first.nodes - nodes) as nat,
            from,
            to,
            depth,
            other_depth,
        );
    }
}

proof fn lemma_repeated_moved(
    bytes: Seq<u8>,
    code: u8,
    count: nat,
    nodes: nat,
    other: nat,
    from: Limits,
    to: Limits,
    depth: nat,
    other_depth: nat,
)
    requires
        leaves_room(from, to, depth, other_depth),
        admission::repeated(bytes, code, count, nodes, from, depth).error is None,
        other + (admission::repeated(bytes, code, count, nodes, from, depth).nodes - nodes) <= to.nodes,
    ensures
        admission::repeated(bytes, code, count, other, to, other_depth) == moved(
            admission::repeated(bytes, code, count, nodes, from, depth),
            nodes,
            other,
        ),
    decreases admission::room(from, depth), 1nat, count,
{
    if count > 0 {
        let first = admission::payload(bytes, code, nodes, from, depth);
        let rest = bytes.skip(first.used as int);
        let left = (count - 1) as nat;
        lemma_payload_budget(bytes, code, nodes, from, depth);
        lemma_repeated_budget(rest, code, left, first.nodes, from, depth);
        lemma_payload_moved(bytes, code, nodes, other, from, to, depth, other_depth);
        lemma_repeated_moved(
            rest,
            code,
            left,
            first.nodes,
            (other + first.nodes - nodes) as nat,
            from,
            to,
            depth,
            other_depth,
        );
    }
}

/// Wider limits, or fewer nodes counted before, admit all that was admitted: with the same
/// length, and with as many nodes counted for the value itself.
pub proof fn law_wider_limits_admit_more(
    bytes: Seq<u8>,
    nodes: nat,
    less: nat,
    small: Limits,
    large: Limits,
    depth: nat,
)
    requires
        less <= nodes,
        no_wider(small, large),
        admission::value(bytes, nodes, small, depth).error is None,
    ensures
        admission::value(bytes, (nodes - less) as nat, large, depth) == moved(
            admission::value(bytes, nodes, small, depth),
            nodes,
            (nodes - less) as nat,
        ),
{
    law_admitted_values_fit_the_budget(bytes, nodes, small, depth);
    law_admitted_values_may_move(
        bytes,
        nodes,
        (nodes - less) as nat,
        small,
        large,
        depth,
        depth,
    );
}

/// Whatever a scan counted before and however deep it stands, a value that it admits under the
/// codec limits takes as many bytes as its extent says: at least one, and no more than there are.
pub proof fn law_scans_agree_with_extents(bytes: Seq<u8>, nodes: nat, depth: nat)
    requires
        admission::value(bytes, nodes, admission::default_limits(), depth).error is None,
    ensures
        ({
            let scanned = admission::value(bytes, nodes, admission::default_limits(), depth);
            &&& admission::extent(bytes) == Ok::<nat, AdmissionError>(scanned.used)
            &&& 1 <= scanned.used <= bytes.len()
            &&& nodes < scanned.nodes <= admission::default_limits().nodes
        }),
{
    let limits = admission::default_limits();
    law_admitted_values_fit_the_budget(bytes, nodes, limits, depth);
    law_admitted_values_may_move(bytes, nodes, 0, limits, limits, depth, 0);
}

/// Whether the bytes are one value that is admitted by itself.
pub open spec fn stands_alone(bytes: Seq<u8>, limits: Limits) -> bool {
    let scanned = admission::value(bytes, 0, limits, 0);
    scanned.error is None && scanned.used == bytes.len()
}

/// The nodes of values that are each counted by itself.
pub open spec fn nodes_apart(values: Seq<Seq<u8>>, limits: Limits) -> nat
    decreases values.len(),
{
    if values.len() == 0 {
        0
    } else {
        admission::value(values.first(), 0, limits, 0).nodes + nodes_apart(
            values.drop_first(),
            limits,
        )
    }
}

/// Values that are admitted one by one are admitted together, one after the other, while their
/// nodes fit the budget; and they take as many nodes together as one by one.
pub proof fn law_values_are_admitted_together(values: Seq<Seq<u8>>, limits: Limits)
    requires
        forall|i: int| 0 <= i < values.len() ==> stands_alone(#[trigger] values[i], limits),
        nodes_apart(values, limits) <= limits.nodes,
    ensures
        admission::every_value(values.flatten(), 0, limits) == (Scanned {
            used: values.flatten().len(),
            nodes: nodes_apart(values, limits),
            error: None,
        }),
    decreases values.len(),
{
    if values.len() > 0 {
        let first = values.first();
        let others = values.drop_first();
        let rest = others.flatten();
        assert(stands_alone(values[0], limits));
        assert forall|i: int| 0 <= i < others.len() implies stands_alone(
            #[trigger] others[i],
            limits,
        ) by {
            assert(others[i] == values[i + 1]);
        }
        law_values_are_admitted_together(others, limits);
        law_admitted_values_fit_the_budget(first, 0, limits, 0);
        law_decisions_are_final(first, rest, 0, limits, 0);
        assert((first + rest).skip(first.len() as int) =~= rest);
        lemma_every_value_moved(rest, 0, admission::value(first, 0, limits, 0).nodes, limits);
    }
}

proof fn lemma_every_value_moved(bytes: Seq<u8>, nodes: nat, other: nat, limits: Limits)
    requires
        admission::every_value(bytes, nodes, limits).error is None,
        other + (admission::every_value(bytes, nodes, limits).nodes - nodes) <= limits.nodes,
    ensures
        nodes <= admission::every_value(bytes, nodes, limits).nodes,
        admission::every_value(bytes, other, limits) == moved(
            admission::every_value(bytes, nodes, limits),
            nodes,
            other,
        ),
    decreases bytes.len(),
{
    if bytes.len() > 0 {
        let first = admission::value(bytes, nodes, limits, 0);
        let rest = bytes.skip(first.used as int);
        law_admitted_values_fit_the_budget(bytes, nodes, limits, 0);
        lemma_every_value_nodes(rest, first.nodes, limits);
        law_admitted_values_may_move(bytes, nodes, other, limits, limits, 0, 0);
        lemma_every_value_moved(rest, first.nodes, (other + first.nodes - nodes) as nat, limits);
    }
}

proof fn lemma_every_value_nodes(bytes: Seq<u8>, nodes: nat, limits: Limits)
    requires
        admission::every_value(bytes, nodes, limits).error is None,
    ensures
        nodes <= admission::every_value(bytes, nodes, limits).nodes,
    decreases bytes.len(),
{
    if bytes.len() > 0 {
        let first = admission::value(bytes, nodes, limits, 0);
        law_admitted_values_fit_the_budget(bytes, nodes, limits, 0);
        lemma_every_value_nodes(bytes.skip(first.used as int), first.nodes, limits);
    }
}

/// An array without elements whose constructor is `bytes`, given the digits of its size and of
/// its count.
pub open spec fn empty_array(code: u8, size: Seq<u8>, count: Seq<u8>, bytes: Seq<u8>) -> Seq<u8> {
    seq![code] + size + count + bytes
}

/// Limits that allow one more node and one more level.
pub open spec fn one_more(limits: Limits) -> Limits {
    Limits { depth: (limits.depth + 1) as usize, nodes: (limits.nodes + 1) as usize }
}

proof fn lemma_constructor_shifted(bytes: Seq<u8>, nodes: nat, limits: Limits, depth: nat)
    requires
        limits.depth < usize::MAX,
        limits.nodes + 1 < usize::MAX,
        nodes <= limits.nodes,
    ensures
        ({
            let before = admission::constructor(bytes, nodes, limits, depth);
            let after = admission::constructor(bytes, nodes + 1, one_more(limits), depth + 1);
            &&& after.scanned == moved(before.scanned, nodes, nodes + 1)
            &&& after.code == before.code
            &&& before.scanned.nodes >= nodes
        }),
    decreases admission::room(limits, depth),
{
    if depth <= limits.depth && bytes.len() >= 2 && bytes[0] == 0 && admission::is_descriptor_code(
        bytes[1],
    ) {
        let descriptor = admission::leaf(bytes.skip(2), bytes[1], nodes, limits, depth + 1);
        let taken = 2 + descriptor.used;
        if descriptor.error is None {
            lemma_constructor_shifted(
                bytes.skip(taken as int),
                descriptor.nodes,
                limits,
                depth + 1,
            );
        }
    }
}

/// The check of an array constructor agrees with the scan of an array that has it and no element:
/// under limits that allow for the array itself both admit, exceed a limit or refuse alike.
/// Under the codec limits themselves the scan admits no more than the check, and refuses what the
/// check admits only for a limit.
pub proof fn law_array_constructors_agree_with_empty_arrays(
    code: u8,
    size: Seq<u8>,
    count: Seq<u8>,
    bytes: Seq<u8>,
)
    requires
        admission::is_array(code),
        size.len() == admission::length_width(code),
        count.len() == admission::length_width(code),
        admission::big_endian(size) == count.len() + bytes.len(),
        admission::big_endian(count) == 0,
    ensures
        ({
            let array = empty_array(code, size, count, bytes);
            let limits = admission::default_limits();
            let checked = admission::array_constructor(bytes);
            let scanned = admission::value(array, 0, limits, 0);
            let allowed = admission::value(array, 0, one_more(limits), 0);
            &&& allowed.error == match checked {
                Ok(_) => None,
                Err(AdmissionError::Limit) => Some(AdmissionError::Limit),
                Err(_) => Some(AdmissionError::Invalid),
            }
            &&& scanned.error is None ==> checked is Ok
            &&& checked is Ok ==> none_or_limit(scanned.error)
        }),
{
    let limits = admission::default_limits();
    let array = empty_array(code, size, count, bytes);
    let width = size.len() as int;
    let body = array.skip(1);
    let inner = body.subrange(width, width + width + bytes.len());
    assert(array[0] == code);
    assert(body.take(width) =~= size);
    assert(inner.take(width) =~= count);
    assert(inner.skip(width) =~= bytes);
    lemma_constructor_shifted(bytes, 0, limits, 0);
    admission::lemma_constructor_takes(bytes, 1, one_more(limits), 1);
    if admission::value(array, 0, limits, 0).error is None {
        law_wider_limits_admit_more(array, 0, 0, limits, one_more(limits), 0);
    }
    if admission::array_constructor(bytes) is Ok {
        law_narrower_limits_are_exceeded(array, 0, limits, one_more(limits), 0);
    }
}

/// Whether nothing went wrong but that a limit was exceeded.
pub open spec fn none_or_limit(error: Option<AdmissionError>) -> bool {
    error is None || error == Some(AdmissionError::Limit)
}

proof fn lemma_constructor_narrowed(
    bytes: Seq<u8>,
    nodes: nat,
    small: Limits,
    large: Limits,
    depth: nat,
)
    requires
        no_wider(small, large),
        admission::constructor(bytes, nodes, large, depth).scanned.error is None,
    ensures
        none_or_limit(admission::constructor(bytes, nodes, small, depth).scanned.error),
    decreases admission::room(small, depth),
{
    if depth <= small.depth && bytes[0] == 0 {
        let descriptor = admission::leaf(bytes.skip(2), bytes[1], nodes, large, depth + 1);
        let taken = 2 + descriptor.used;
        lemma_constructor_narrowed(
            bytes.skip(taken as int),
            descriptor.nodes,
            small,
            large,
            depth + 1,
        );
    }
}

/// What is well formed is never refused as malformed for want of a budget: a value that some
/// limits admit is admitted by narrower ones, or exceeds them.
pub proof fn law_narrower_limits_are_exceeded(
    bytes: Seq<u8>,
    nodes: nat,
    small: Limits,
    large: Limits,
    depth: nat,
)
    requires
        no_wider(small, large),
        admission::value(bytes, nodes, large, depth).error is None,
    ensures
        none_or_limit(admission::value(bytes, nodes, small, depth).error),
    decreases admission::room(small, depth), 1nat, 0nat,
{
    let head = admission::constructor(bytes, nodes, small, depth);
    lemma_constructor_narrowed(bytes, nodes, small, large, depth);
    law_admitted_values_fit_the_budget(bytes, nodes, large, depth);
    if head.scanned.error is None {
        lemma_constructor_budget(bytes, nodes, small, depth);
        lemma_constructor_moved(bytes, nodes, nodes, small, large, depth, depth);
        admission::lemma_constructor_depth(bytes, nodes, small, depth);
        lemma_payload_narrowed(
            bytes.skip(head.scanned.used as int),
            head.code,
            head.scanned.nodes,
            small,
            large,
            head.depth,
        );
    }
}

proof fn lemma_payload_narrowed(
    bytes: Seq<u8>,
    code: u8,
    nodes: nat,
    small: Limits,
    large: Limits,
    depth: nat,
)
    requires
        no_wider(small, large),
        admission::payload(bytes, code, nodes, large, depth).error is None,
    ensures
        none_or_limit(admission::payload(bytes, code, nodes, small, depth).error),
    decreases admission::room(small, depth), 0nat, 0nat,
{
    if admission::is_compound(code) && admission::node_refused(nodes, small, depth) is None {
        let width = admission::length_width(code);
        let size = admission::big_endian(bytes.take(width as int));
        let inner = bytes.subrange(width as int, (width + size) as int);
        lemma_contents_narrowed(inner, code, nodes + 1, small, large, depth + 1);
        if admission::contents(inner, code, nodes + 1, small, depth + 1).error is None {
            lemma_contents_budget(inner, code, nodes + 1, small, depth + 1);
            lemma_contents_moved(
                inner,
                code,
                nodes + 1,
                nodes + 1,
                small,
                large,
                depth + 1,
                depth + 1,
            );
        }
    }
}

proof fn lemma_contents_narrowed(
    inner: Seq<u8>,
    code: u8,
    nodes: nat,
    small: Limits,
    large: Limits,
    depth: nat,
)
    requires
        no_wider(small, large),
        admission::contents(inner, code, nodes, large, depth).error is None,
    ensures
        none_or_limit(admission::contents(inner, code, nodes, small, depth).error),
    decreases admission::room(small, depth), 3nat, 0nat,
{
    let width = admission::length_width(code);
    let count = admission::big_endian(inner.take(width as int));
    let rest = inner.skip(width as int);
    if admission::is_array(code) {
        let head = admission::constructor(rest, nodes, small, depth);
        lemma_constructor_narrowed(rest, nodes, small, large, depth);
        if head.scanned.error is None {
            lemma_constructor_budget(rest, nodes, small, depth);
            lemma_constructor_moved(rest, nodes, nodes, small, large, depth, depth);
            admission::lemma_constructor_depth(rest, nodes, small, depth);
            lemma_repeated_narrowed(
                rest.skip(head.scanned.used as int),
                head.code,
                count,
                head.scanned.nodes,
                small,
                large,
                head.depth,
            );
        }
    } else {
        lemma_elements_narrowed(rest, count, nodes, small, large, depth);
    }
}

proof fn lemma_elements_narrowed(
    bytes: Seq<u8>,
    count: nat,
    nodes: nat,
    small: Limits,
    large: Limits,
    depth: nat,
)
    requires
        no_wider(small, large),
        admission::elements(bytes, count, nodes, large, depth).error is None,
    ensures
        none_or_limit(admission::elements(bytes, count, nodes, small, depth).error),
    decreases admission::room(small, depth), 2nat, count,
{
    if count > 0 {
        let first = admission::value(bytes, nodes, small, depth);
        law_narrower_limits_are_exceeded(bytes, nodes, small, large, depth);
        if first.error is None {
            law_wider_limits_admit_more(bytes, nodes, 0, small, large, depth);
            lemma_elements_narrowed(
                bytes.skip(first.used as int),
                (count - 1) as nat,
                first.nodes,
                small,
                large,
                depth,
            );
        }
    }
}

proof fn lemma_repeated_narrowed(
    bytes: Seq<u8>,
    code: u8,
    count: nat,
    nodes: nat,
    small: Limits,
    large: Limits,
    depth: nat,
)
    requires
        no_wider(small, large),
        admission::repeated(bytes, code, count, nodes, large, depth).error is None,
    ensures
        none_or_limit(admission::repeated(bytes, code, count, nodes, small, depth).error),
    decreases admission::room(small, depth), 1nat, count,
{
    if count > 0 {
        let first = admission::payload(bytes, code, nodes, small, depth);
        lemma_payload_narrowed(bytes, code, nodes, small, large, depth);
        if first.error is None {
            lemma_payload_budget(bytes, code, nodes, small, depth);
            lemma_payload_moved(bytes, code, nodes, nodes, small, large, depth, depth);
            lemma_repeated_narrowed(
                bytes.skip(first.used as int),
                code,
                (count - 1) as nat,
                first.nodes,
                small,
                large,
                depth,
            );
        }
    }
}

proof fn lemma_constructor_budget(bytes: Seq<u8>, nodes: nat, limits: Limits, depth: nat)
    requires
        admission::constructor(bytes, nodes, limits, depth).scanned.error is None,
    ensures
        nodes <= admission::constructor(bytes, nodes, limits, depth).scanned.nodes,
        nodes <= limits.nodes ==> admission::constructor(
            bytes,
            nodes,
            limits,
            depth,
        ).scanned.nodes <= limits.nodes,
        nodes > limits.nodes ==> admission::constructor(
            bytes,
            nodes,
            limits,
            depth,
        ).scanned.nodes == nodes,
    decreases admission::room(limits, depth),
{
    if bytes[0] == 0 {
        let descriptor = admission::leaf(bytes.skip(2), bytes[1], nodes, limits, depth + 1);
        let taken = 2 + descriptor.used;
        lemma_constructor_budget(bytes.skip(taken as int), descriptor.nodes, limits, depth + 1);
    }
}

/// An admitted value takes at least one byte and no more than there are, adds at least its own
/// node, and never leaves the node budget: zero-width elements count like any other.
pub proof fn law_admitted_values_fit_the_budget(
    bytes: Seq<u8>,
    nodes: nat,
    limits: Limits,
    depth: nat,
)
    requires
        admission::value(bytes, nodes, limits, depth).error is None,
    ensures
        1 <= admission::value(bytes, nodes, limits, depth).used <= bytes.len(),
        nodes < admission::value(bytes, nodes, limits, depth).nodes <= limits.nodes,
        depth <= limits.depth,
    decreases admission::room(limits, depth), 1nat, 0nat,
{
    let head = admission::constructor(bytes, nodes, limits, depth);
    admission::lemma_value_takes(bytes, nodes, limits, depth);
    lemma_constructor_budget(bytes, nodes, limits, depth);
    admission::lemma_constructor_depth(bytes, nodes, limits, depth);
    lemma_payload_budget(
        bytes.skip(head.scanned.used as int),
        head.code,
        head.scanned.nodes,
        limits,
        head.depth,
    );
}

proof fn lemma_payload_budget(bytes: Seq<u8>, code: u8, nodes: nat, limits: Limits, depth: nat)
    requires
        admission::payload(bytes, code, nodes, limits, depth).error is None,
    ensures
        nodes < admission::payload(bytes, code, nodes, limits, depth).nodes <= limits.nodes,
        depth <= limits.depth,
    decreases admission::room(limits, depth), 0nat, 0nat,
{
    if admission::is_compound(code) {
        let width = admission::length_width(code);
        let size = admission::big_endian(bytes.take(width as int));
        let inner = bytes.subrange(width as int, (width + size) as int);
        lemma_contents_budget(inner, code, nodes + 1, limits, depth + 1);
    }
}

proof fn lemma_contents_budget(inner: Seq<u8>, code: u8, nodes: nat, limits: Limits, depth: nat)
    requires
        admission::contents(inner, code, nodes, limits, depth).error is None,
    ensures
        nodes <= admission::contents(inner, code, nodes, limits, depth).nodes <= limits.nodes,
    decreases admission::room(limits, depth), 3nat, 0nat,
{
    let width = admission::length_width(code);
    let count = admission::big_endian(inner.take(width as int));
    let rest = inner.skip(width as int);
    if admission::is_array(code) {
        let head = admission::constructor(rest, nodes, limits, depth);
        lemma_constructor_budget(rest, nodes, limits, depth);
        admission::lemma_constructor_depth(rest, nodes, limits, depth);
        lemma_repeated_budget(
            rest.skip(head.scanned.used as int),
            head.code,
            count,
            head.scanned.nodes,
            limits,
            head.depth,
        );
    } else {
        lemma_elements_budget(rest, count, nodes, limits, depth);
    }
}

proof fn lemma_elements_budget(bytes: Seq<u8>, count: nat, nodes: nat, limits: Limits, depth: nat)
    requires
        admission::elements(bytes, count, nodes, limits, depth).error is None,
    ensures
        nodes + count <= admission::elements(bytes, count, nodes, limits, depth).nodes,
        count > 0 ==> admission::elements(bytes, count, nodes, limits, depth).nodes
            <= limits.nodes,
        count == 0 ==> admission::elements(bytes, count, nodes, limits, depth).nodes == nodes,
    decreases admission::room(limits, depth), 2nat, count,
{
    if count > 0 {
        let first = admission::value(bytes, nodes, limits, depth);
        law_admitted_values_fit_the_budget(bytes, nodes, limits, depth);
        lemma_elements_budget(
            bytes.skip(first.used as int),
            (count - 1) as nat,
            first.nodes,
            limits,
            depth,
        );
    }
}

proof fn lemma_repeated_budget(
    bytes: Seq<u8>,
    code: u8,
    count: nat,
    nodes: nat,
    limits: Limits,
    depth: nat,
)
    requires
        admission::repeated(bytes, code, count, nodes, limits, depth).error is None,
    ensures
        nodes + count <= admission::repeated(bytes, code, count, nodes, limits, depth).nodes,
        count > 0 ==> admission::repeated(bytes, code, count, nodes, limits, depth).nodes
            <= limits.nodes,
        count == 0 ==> admission::repeated(bytes, code, count, nodes, limits, depth).nodes
            == nodes,
    decreases admission::room(limits, depth), 1nat, count,
{
    if count > 0 {
        let first = admission::payload(bytes, code, nodes, limits, depth);
        lemma_payload_budget(bytes, code, nodes, limits, depth);
        lemma_repeated_budget(
            bytes.skip(first.used as int),
            code,
            (count - 1) as nat,
            first.nodes,
            limits,
            depth,
        );
    }
}

/// Each refusal is described in its own words, behind one prefix that all of them share.
pub proof fn law_refusals_are_described_apart(one: AdmissionError, other: AdmissionError)
    ensures
        one.shown() == other.shown() <==> one == other,
        one.shown().len() > "AMQP admission: "@.len(),
        one.shown().take("AMQP admission: "@.len() as int) == "AMQP admission: "@,
{
    reveal_strlit("AMQP admission: ");
    reveal_strlit("AMQP admission: Incomplete");
    reveal_strlit("AMQP admission: Invalid");
    reveal_strlit("AMQP admission: Limit");
    if one != other {
        assert(one.shown().len() != other.shown().len());
    }
}

} // verus!
