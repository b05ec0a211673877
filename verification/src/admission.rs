//! Structural admission of encoded AMQP values, decided before anything is allocated or visited.
//!
//! [`Scan`] walks an encoding without building a value. What it decides is stated by the
//! specification functions [`value`], [`payload`], [`constructor`] and their helpers, which say
//! for every input how many bytes are taken, how many nodes were visited and which error, if
//! any, is reported.

use vstd::prelude::*;

verus! {

/// Why an encoded value is not admitted.
///
/// A truncated encoding is told apart from malformed syntax so that input can arrive in pieces.
#[derive(Clone, Copy, Debug, PartialEq, Eq, Structural)]
pub enum AdmissionError {
    /// More encoded bytes are needed.
    Incomplete,
    /// The encoded structure is invalid.
    Invalid,
    /// The materialization budget was exceeded.
    Limit,
}

impl AdmissionError {
    /// What is shown of the error.
    pub open spec fn shown(self) -> Seq<char> {
        match self {
            AdmissionError::Incomplete => "AMQP admission: Incomplete"@,
            AdmissionError::Invalid => "AMQP admission: Invalid"@,
            AdmissionError::Limit => "AMQP admission: Limit"@,
        }
    }

    /// What is shown of the error.
    pub fn describe(&self) -> (text: &'static str)
        ensures
            text@ == self.shown(),
    {
        match self {
            AdmissionError::Incomplete => "AMQP admission: Incomplete",
            AdmissionError::Invalid => "AMQP admission: Invalid",
            AdmissionError::Limit => "AMQP admission: Limit",
        }
    }
}

/// Bounds on one materialized value tree, not on cumulative network traffic.
#[derive(Clone, Copy, Debug)]
pub struct Limits {
    /// Maximum nesting depth.
    pub depth: usize,
    /// Maximum expanded nodes, including zero-width array elements.
    pub nodes: usize,
}

/// The limits that the codec applies when none are given.
pub open spec fn default_limits() -> Limits {
    Limits { depth: 64, nodes: 131072 }
}

impl Default for Limits {
    fn default() -> (limits: Self)
        ensures
            limits == default_limits(),
    {
        Limits { depth: 64, nodes: 131072 }
    }
}

/// What scanning did: the bytes it took, the nodes counted so far, and how it ended.
pub struct Scanned {
    /// Bytes taken from the front of the input, also when the scan failed.
    pub used: nat,
    /// Expanded nodes counted so far, including those counted before the scan began.
    pub nodes: nat,
    /// The error that ended the scan, if one did.
    pub error: Option<AdmissionError>,
}

/// A constructor read from the front of the input.
pub struct Constructor {
    /// Bytes taken, nodes counted for the descriptors, and the error.
    pub scanned: Scanned,
    /// The format code that the constructor ends with.
    pub code: u8,
    /// The nesting depth of the value that the format code introduces.
    pub depth: nat,
}

/// The unsigned number whose big-endian digits are `bytes`.
pub open spec fn big_endian(bytes: Seq<u8>) -> nat
    decreases bytes.len(),
{
    if bytes.len() == 0 {
        0
    } else {
        big_endian(bytes.drop_last()) * 256 + bytes.last() as nat
    }
}

/// Bytes that a format code of fixed width takes.
pub open spec fn fixed_width(code: u8) -> Option<nat> {
    if 0x40 <= code <= 0x45 {
        Some(0)
    } else if 0x50 <= code <= 0x56 {
        Some(1)
    } else if code == 0x60 || code == 0x61 {
        Some(2)
    } else if 0x70 <= code <= 0x74 {
        Some(4)
    } else if 0x80 <= code <= 0x84 {
        Some(8)
    } else if code == 0x94 || code == 0x98 {
        Some(16)
    } else {
        None
    }
}

/// Binary, string and symbol: a length and that many bytes.
pub open spec fn is_variable(code: u8) -> bool {
    code == 0xa0 || code == 0xa1 || code == 0xa3 || code == 0xb0 || code == 0xb1 || code == 0xb3
}

/// Array: one constructor shared by all elements.
pub open spec fn is_array(code: u8) -> bool {
    code == 0xe0 || code == 0xf0
}

/// Map: keys and values in turn.
pub open spec fn is_map(code: u8) -> bool {
    code == 0xc1 || code == 0xd1
}

/// List, map and array: a size, a count and that many elements.
pub open spec fn is_compound(code: u8) -> bool {
    code == 0xc0 || code == 0xd0 || is_map(code) || is_array(code)
}

/// The format codes that AMQP 1.0 defines, apart from the descriptor mark zero.
pub open spec fn is_format_code(code: u8) -> bool {
    fixed_width(code) is Some || is_variable(code) || is_compound(code)
}

/// The format codes that may stand for a descriptor: an unsigned long or a symbol.
pub open spec fn is_descriptor_code(code: u8) -> bool {
    code == 0x44 || code == 0x53 || code == 0x80 || code == 0xa3 || code == 0xb3
}

/// Bytes in the length or size field of a variable or compound code.
pub open spec fn length_width(code: u8) -> nat {
    if code == 0xa0 || code == 0xa1 || code == 0xa3 || code == 0xc0 || code == 0xc1 || code
        == 0xe0 {
        1
    } else {
        4
    }
}

/// A Unicode scalar value.
pub open spec fn is_scalar(code_point: nat) -> bool {
    code_point < 0xD800 || 0xE000 <= code_point <= 0x10FFFF
}

/// Every byte is an ASCII character.
pub open spec fn is_ascii_bytes(bytes: Seq<u8>) -> bool {
    forall|i: int| 0 <= i < bytes.len() ==> #[trigger] bytes[i] < 128
}

/// Whether the bytes of a fixed or variable value are ones that its format code allows.
pub open spec fn content_allowed(code: u8, bytes: Seq<u8>) -> bool {
    &&& code == 0x56 ==> bytes[0] <= 1
    &&& code == 0x73 ==> is_scalar(big_endian(bytes))
    &&& (code == 0xa1 || code == 0xb1) ==> vstd::utf8::valid_utf8(bytes)
    &&& (code == 0xa3 || code == 0xb3) ==> is_ascii_bytes(bytes)
}

/// Whether counting one more node at `depth` is refused, and with which error.
pub open spec fn node_refused(nodes: nat, limits: Limits, depth: nat) -> Option<AdmissionError> {
    if nodes + 1 > usize::MAX {
        Some(AdmissionError::Invalid)
    } else if depth > limits.depth || nodes + 1 > limits.nodes {
        Some(AdmissionError::Limit)
    } else {
        None
    }
}

/// The node count after one more node was counted, as far as it can be.
pub open spec fn counted(nodes: nat) -> nat {
    if nodes + 1 > usize::MAX {
        nodes
    } else {
        nodes + 1
    }
}

/// The bytes after the constructor `code`, where `code` is no compound.
pub open spec fn leaf(bytes: Seq<u8>, code: u8, nodes: nat, limits: Limits, depth: nat) -> Scanned {
    if node_refused(nodes, limits, depth) is Some {
        Scanned { used: 0, nodes: counted(nodes), error: node_refused(nodes, limits, depth) }
    } else {
        counted_leaf(bytes, code, nodes + 1)
    }
}

/// The same once its node is counted.
pub open spec fn counted_leaf(bytes: Seq<u8>, code: u8, nodes: nat) -> Scanned {
    if let Some(width) = fixed_width(code) {
        if bytes.len() < width {
            Scanned { used: 0, nodes, error: Some(AdmissionError::Incomplete) }
        } else if !content_allowed(code, bytes.take(width as int)) {
            Scanned { used: width, nodes, error: Some(AdmissionError::Invalid) }
        } else {
            Scanned { used: width, nodes, error: None }
        }
    } else if is_variable(code) {
        let width = length_width(code);
        let length = big_endian(bytes.take(width as int));
        if bytes.len() < width {
            Scanned { used: 0, nodes, error: Some(AdmissionError::Incomplete) }
        } else if bytes.len() < width + length {
            Scanned { used: width, nodes, error: Some(AdmissionError::Incomplete) }
        } else if !content_allowed(code, bytes.subrange(width as int, (width + length) as int)) {
            Scanned { used: width + length, nodes, error: Some(AdmissionError::Invalid) }
        } else {
            Scanned { used: width + length, nodes, error: None }
        }
    } else {
        Scanned { used: 0, nodes, error: Some(AdmissionError::Invalid) }
    }
}

/// How many more levels a value at `depth` may open, itself included.
pub open spec fn room(limits: Limits, depth: nat) -> nat {
    if depth > limits.depth {
        0
    } else {
        (limits.depth + 1 - depth) as nat
    }
}

/// A constructor: any number of descriptors, each one level deeper, and a format code.
pub open spec fn constructor(bytes: Seq<u8>, nodes: nat, limits: Limits, depth: nat) -> Constructor
    decreases room(limits, depth),
{
    let fail = |used: nat, nodes: nat, error: AdmissionError|
        Constructor { scanned: Scanned { used, nodes, error: Some(error) }, code: 0, depth };
    if depth > limits.depth {
        fail(0, nodes, AdmissionError::Limit)
    } else if bytes.len() < 1 {
        fail(0, nodes, AdmissionError::Incomplete)
    } else if bytes[0] != 0 {
        if is_format_code(bytes[0]) {
            Constructor { scanned: Scanned { used: 1, nodes, error: None }, code: bytes[0], depth }
        } else {
            fail(1, nodes, AdmissionError::Invalid)
        }
    } else if bytes.len() < 2 {
        fail(1, nodes, AdmissionError::Incomplete)
    } else if !is_descriptor_code(bytes[1]) {
        fail(2, nodes, AdmissionError::Invalid)
    } else {
        let descriptor = leaf(bytes.skip(2), bytes[1], nodes, limits, depth + 1);
        let taken = 2 + descriptor.used;
        if let Some(error) = descriptor.error {
            fail(taken, descriptor.nodes, error)
        } else {
            let rest = constructor(bytes.skip(taken as int), descriptor.nodes, limits, depth + 1);
            Constructor {
                scanned: Scanned { used: taken + rest.scanned.used, ..rest.scanned },
                ..rest
            }
        }
    }
}

/// Reading a constructor never leaves the level it started on.
pub proof fn lemma_constructor_depth(bytes: Seq<u8>, nodes: nat, limits: Limits, depth: nat)
    ensures
        constructor(bytes, nodes, limits, depth).depth >= depth,
    decreases room(limits, depth),
{
    if depth <= limits.depth && bytes.len() >= 2 && bytes[0] == 0 && is_descriptor_code(bytes[1]) {
        let descriptor = leaf(bytes.skip(2), bytes[1], nodes, limits, depth + 1);
        let taken = 2 + descriptor.used;
        if descriptor.error is None {
            lemma_constructor_depth(
                bytes.skip(taken as int),
                descriptor.nodes,
                limits,
                depth + 1,
            );
        }
    }
}

/// One value: a constructor and the bytes it introduces.
pub open spec fn value(bytes: Seq<u8>, nodes: nat, limits: Limits, depth: nat) -> Scanned
    decreases room(limits, depth), 1nat, 0nat,
{
    let head = constructor(bytes, nodes, limits, depth);
    if head.scanned.error is Some {
        head.scanned
    } else {
        proof {
            lemma_constructor_depth(bytes, nodes, limits, depth);
        }
        let body = payload(
            bytes.skip(head.scanned.used as int),
            head.code,
            head.scanned.nodes,
            limits,
            head.depth,
        );
        Scanned { used: head.scanned.used + body.used, ..body }
    }
}

/// The bytes after the constructor `code`.
pub open spec fn payload(
    bytes: Seq<u8>,
    code: u8,
    nodes: nat,
    limits: Limits,
    depth: nat,
) -> Scanned
    decreases room(limits, depth), 0nat, 0nat,
{
    if !is_compound(code) || node_refused(nodes, limits, depth) is Some {
        leaf(bytes, code, nodes, limits, depth)
    } else {
        let width = length_width(code);
        let size = big_endian(bytes.take(width as int));
        if bytes.len() < width {
            Scanned { used: 0, nodes: nodes + 1, error: Some(AdmissionError::Incomplete) }
        } else if bytes.len() < width + size {
            Scanned { used: width, nodes: nodes + 1, error: Some(AdmissionError::Incomplete) }
        } else {
            let inner = bytes.subrange(width as int, (width + size) as int);
            closed_compound(inner, width, nodes + 1, contents(inner, code, nodes + 1, limits, depth + 1))
        }
    }
}

/// A compound that is present in full, given how its contents were scanned.
///
/// Elements that run out of bytes make it invalid instead of incomplete, and the elements must
/// fill it exactly. The nodes of its elements count only where it is admitted.
pub open spec fn closed_compound(
    inner: Seq<u8>,
    width: nat,
    nodes: nat,
    contents: Scanned,
) -> Scanned {
    let used = width + inner.len();
    match contents.error {
        None => if contents.used == inner.len() {
            Scanned { used, nodes: contents.nodes, error: None }
        } else {
            Scanned { used, nodes, error: Some(AdmissionError::Invalid) }
        },
        Some(AdmissionError::Limit) => Scanned { used, nodes, error: Some(AdmissionError::Limit) },
        Some(_) => Scanned { used, nodes, error: Some(AdmissionError::Invalid) },
    }
}

/// What stands inside a compound of format code `code`: a count and that many elements.
pub open spec fn contents(
    inner: Seq<u8>,
    code: u8,
    nodes: nat,
    limits: Limits,
    depth: nat,
) -> Scanned
    decreases room(limits, depth), 3nat, 0nat,
{
    let width = length_width(code);
    let count = big_endian(inner.take(width as int));
    let rest = inner.skip(width as int);
    if inner.len() < width {
        Scanned { used: 0, nodes, error: Some(AdmissionError::Incomplete) }
    } else if count_refused(code, count, nodes, limits) is Some {
        Scanned { used: width, nodes, error: count_refused(code, count, nodes, limits) }
    } else if is_array(code) {
        let head = constructor(rest, nodes, limits, depth);
        let taken = width + head.scanned.used;
        if head.scanned.error is Some {
            Scanned { used: taken, ..head.scanned }
        } else if head.code == 0x40 {
            Scanned { used: taken, error: Some(AdmissionError::Invalid), ..head.scanned }
        } else {
            proof {
                lemma_constructor_depth(rest, nodes, limits, depth);
            }
            let items = repeated(
                rest.skip(head.scanned.used as int),
                head.code,
                count,
                head.scanned.nodes,
                limits,
                head.depth,
            );
            Scanned { used: taken + items.used, ..items }
        }
    } else {
        let items = elements(rest, count, nodes, limits, depth);
        Scanned { used: width + items.used, ..items }
    }
}

/// Whether the announced number of elements is refused, and with which error. A map holds an even
/// number of them, and a compound may not announce more than the node budget still holds.
pub open spec fn count_refused(code: u8, count: nat, nodes: nat, limits: Limits) -> Option<
    AdmissionError,
> {
    if is_map(code) && count % 2 != 0 {
        Some(AdmissionError::Invalid)
    } else if count + nodes > limits.nodes {
        Some(AdmissionError::Limit)
    } else {
        None
    }
}

/// `count` values, one after the other.
pub open spec fn elements(
    bytes: Seq<u8>,
    count: nat,
    nodes: nat,
    limits: Limits,
    depth: nat,
) -> Scanned
    decreases room(limits, depth), 2nat, count,
{
    if count == 0 {
        Scanned { used: 0, nodes, error: None }
    } else {
        let first = value(bytes, nodes, limits, depth);
        if first.error is Some {
            first
        } else {
            let rest = elements(
                bytes.skip(first.used as int),
                (count - 1) as nat,
                first.nodes,
                limits,
                depth,
            );
            Scanned { used: first.used + rest.used, ..rest }
        }
    }
}

/// `count` array elements, which share the constructor `code`.
pub open spec fn repeated(
    bytes: Seq<u8>,
    code: u8,
    count: nat,
    nodes: nat,
    limits: Limits,
    depth: nat,
) -> Scanned
    decreases room(limits, depth), 1nat, count,
{
    if count == 0 {
        Scanned { used: 0, nodes, error: None }
    } else {
        let first = payload(bytes, code, nodes, limits, depth);
        if first.error is Some {
            first
        } else {
            let rest = repeated(
                bytes.skip(first.used as int),
                code,
                (count - 1) as nat,
                first.nodes,
                limits,
                depth,
            );
            Scanned { used: first.used + rest.used, ..rest }
        }
    }
}


/// Two hundred and fifty-six to the power `exponent`.
spec fn pow256(exponent: nat) -> nat
    decreases exponent,
{
    if exponent == 0 {
        1
    } else {
        pow256((exponent - 1) as nat) * 256
    }
}

proof fn lemma_big_endian_bound(bytes: Seq<u8>)
    ensures
        big_endian(bytes) < pow256(bytes.len()),
    decreases bytes.len(),
{
    if bytes.len() > 0 {
        lemma_big_endian_bound(bytes.drop_last());
    }
}

proof fn lemma_pow256_monotonic(a: nat, b: nat)
    requires
        a <= b,
    ensures
        pow256(a) <= pow256(b),
    decreases b,
{
    if a < b {
        lemma_pow256_monotonic(a, (b - 1) as nat);
    }
}

/// A number of at most four bytes fits every machine word.
pub proof fn lemma_big_endian_fits(bytes: Seq<u8>)
    requires
        bytes.len() <= 4,
    ensures
        big_endian(bytes) <= 0xffff_ffff,
        bytes.len() <= 1 ==> big_endian(bytes) <= 0xff,
        bytes.len() == 1 ==> big_endian(bytes) == bytes[0],
{
    lemma_big_endian_bound(bytes);
    lemma_pow256_monotonic(bytes.len(), 4);
    reveal_with_fuel(pow256, 5);
    reveal_with_fuel(big_endian, 2);
    if bytes.len() == 1 {
        assert(bytes.drop_last().len() == 0);
    }
}

/// As many digits of the same number are the same.
pub proof fn lemma_big_endian_injective(one: Seq<u8>, other: Seq<u8>)
    requires
        one.len() == other.len(),
        big_endian(one) == big_endian(other),
    ensures
        one == other,
    decreases one.len(),
{
    if one.len() > 0 {
        lemma_big_endian_injective(one.drop_last(), other.drop_last());
        assert(one =~= one.drop_last().push(one.last()));
        assert(other =~= other.drop_last().push(other.last()));
    } else {
        assert(one =~= other);
    }
}

/// The number at the front of `bytes`, where there are enough of them.
proof fn lemma_number_fits(bytes: Seq<u8>, width: int)
    ensures
        1 <= width <= 4 && width <= bytes.len() ==> big_endian(bytes.take(width)) <= 0xffff_ffff,
        bytes.len() >= 1 ==> big_endian(bytes.take(1)) == bytes[0],
{
    if 1 <= width <= 4 && width <= bytes.len() {
        lemma_big_endian_fits(bytes.take(width));
    }
    if bytes.len() >= 1 {
        lemma_big_endian_fits(bytes.take(1));
    }
}

/// `std::str::from_utf8`: it succeeds exactly on well-formed UTF-8.
#[verifier::external_body]
fn is_utf8(bytes: &[u8]) -> (valid: bool)
    ensures
        valid == vstd::utf8::valid_utf8(bytes@),
{
    std::str::from_utf8(bytes).is_ok()
}

/// The unsigned number whose big-endian digits are `digits`.
pub(crate) fn read_number(digits: &[u8]) -> (number: u64)
    requires
        digits@.len() <= 8,
    ensures
        number == big_endian(digits@),
{
    let mut number: u64 = 0;
    let mut i: usize = 0;
    while i < digits.len()
        invariant
            i <= digits@.len() <= 8,
            number == big_endian(digits@.take(i as int)),
            number < pow256(i as nat),
        decreases digits@.len() - i,
    {
        proof {
            lemma_pow256_monotonic((i + 1) as nat, 8);
            reveal_with_fuel(pow256, 9);
            assert(digits@.take(i + 1).drop_last() == digits@.take(i as int));
            assert(pow256((i + 1) as nat) == pow256(i as nat) * 256);
        }
        number = number * 256 + digits[i] as u64;
        i += 1;
    }
    assert(digits@.take(i as int) == digits@);
    number
}

/// Whether every byte is an ASCII character.
fn is_ascii(bytes: &[u8]) -> (ascii: bool)
    ensures
        ascii == is_ascii_bytes(bytes@),
{
    let mut i: usize = 0;
    while i < bytes.len()
        invariant
            i <= bytes@.len(),
            forall|j: int| 0 <= j < i ==> #[trigger] bytes@[j] < 128,
        decreases bytes@.len() - i,
    {
        if bytes[i] >= 128 {
            return false;
        }
        i += 1;
    }
    true
}

/// Whether AMQP 1.0 defines `code` as the format code of a value.
fn known_format_code(code: u8) -> (known: bool)
    ensures
        known == is_format_code(code),
{
    match code {
        0x40..=0x45 | 0x50..=0x56 | 0x60 | 0x61 | 0x70..=0x74 | 0x80..=0x84 | 0x94 | 0x98 => true,
        0xa0 | 0xa1 | 0xa3 | 0xb0 | 0xb1 | 0xb3 => true,
        0xc0 | 0xc1 | 0xd0 | 0xd1 | 0xe0 | 0xf0 => true,
        _ => false,
    }
}

/// The error that a scan ended with, as a result.
pub open spec fn as_result(error: Option<AdmissionError>) -> Result<(), AdmissionError> {
    match error {
        None => Ok(()),
        Some(error) => Err(error),
    }
}

/// Whether `depth` can be counted on to the end of `length` bytes.
///
/// It always can unless the depth limit is the greatest machine word: every level takes a byte.
pub open spec fn depth_countable(limits: Limits, depth: nat, length: nat) -> bool {
    limits.depth < usize::MAX || depth + length <= usize::MAX
}

/// An allocation-free cursor over encoded AMQP values.
#[derive(Debug)]
pub struct Scan<'a> {
    bytes: &'a [u8],
    nodes: usize,
    limits: Limits,
}

impl<'a> Scan<'a> {
    /// The bytes not yet taken.
    pub closed spec fn rest(&self) -> Seq<u8> {
        self.bytes@
    }

    /// The expanded nodes counted so far.
    pub closed spec fn node_count(&self) -> nat {
        self.nodes as nat
    }

    /// The limits of this value tree.
    pub closed spec fn bounds(&self) -> Limits {
        self.limits
    }

    /// This cursor moved over `scanned`.
    pub open spec fn moved(&self, before: &Scan, scanned: Scanned) -> bool {
        &&& scanned.used <= before.rest().len()
        &&& self.rest() == before.rest().skip(scanned.used as int)
        &&& self.node_count() == scanned.nodes
        &&& self.bounds() == before.bounds()
    }

    /// Use the codec materialization limits.
    pub fn new(bytes: &'a [u8]) -> (scan: Self)
        ensures
            scan.rest() == bytes@,
            scan.node_count() == 0,
            scan.bounds() == default_limits(),
    {
        Self::with_limits(bytes, Limits::default())
    }

    /// Use explicit limits for this value tree.
    pub fn with_limits(bytes: &'a [u8], limits: Limits) -> (scan: Self)
        ensures
            scan.rest() == bytes@,
            scan.node_count() == 0,
            scan.bounds() == limits,
    {
        Scan { bytes, nodes: 0, limits }
    }

    /// Takes `n` bytes, or none at all.
    fn take(&mut self, n: usize) -> (taken: Result<&'a [u8], AdmissionError>)
        ensures
            n > old(self).rest().len() ==> taken == Err::<&'a [u8], AdmissionError>(
                AdmissionError::Incomplete,
            ) && *final(self) == *old(self),
            n <= old(self).rest().len() ==> {
                &&& taken matches Ok(bytes)
                &&& bytes@ == old(self).rest().take(n as int)
                &&& final(self).rest() == old(self).rest().skip(n as int)
                &&& final(self).node_count() == old(self).node_count()
                &&& final(self).bounds() == old(self).bounds()
            },
    {
        if n > self.bytes.len() {
            return Err(AdmissionError::Incomplete);
        }
        let (taken, rest) = self.bytes.split_at(n);
        self.bytes = rest;
        Ok(taken)
    }

    /// Takes an unsigned number of `n` big-endian bytes.
    fn number(&mut self, n: usize) -> (number: Result<usize, AdmissionError>)
        requires
            n <= 8,
        ensures
            n > old(self).rest().len() ==> number == Err::<usize, AdmissionError>(
                AdmissionError::Incomplete,
            ) && *final(self) == *old(self),
            n <= old(self).rest().len() ==> {
                &&& number == (if big_endian(old(self).rest().take(n as int)) <= usize::MAX {
                    Ok::<usize, AdmissionError>(
                        big_endian(old(self).rest().take(n as int)) as usize,
                    )
                } else {
                    Err(AdmissionError::Invalid)
                })
                &&& final(self).rest() == old(self).rest().skip(n as int)
                &&& final(self).node_count() == old(self).node_count()
                &&& final(self).bounds() == old(self).bounds()
            },
    {
        let digits = match self.take(n) {
            Ok(digits) => digits,
            Err(error) => return Err(error),
        };
        let number = read_number(digits);
        if number > usize::MAX as u64 {
            Err(AdmissionError::Invalid)
        } else {
            Ok(number as usize)
        }
    }

    /// Expanded nodes visited so far.
    pub fn nodes(&self) -> (nodes: usize)
        ensures
            nodes == self.node_count(),
    {
        self.nodes
    }

    /// Unconsumed bytes, including any following payload.
    pub fn remaining(&self) -> (bytes: &'a [u8])
        ensures
            bytes@ == self.rest(),
    {
        self.bytes
    }

    /// Validate every encoded value in the input.
    pub fn all(self) -> (result: Result<(), AdmissionError>)
        requires
            depth_countable(self.bounds(), 0, self.rest().len()),
        ensures
            result == as_result(
                every_value(self.rest(), self.node_count(), self.bounds()).error,
            ),
    {
        let mut scan = self;
        while !scan.bytes.is_empty()
            invariant
                scan.limits == self.limits,
                depth_countable(scan.limits, 0, scan.bytes@.len()),
                every_value(scan.rest(), scan.node_count(), scan.bounds()).error == every_value(
                    self.rest(),
                    self.node_count(),
                    self.bounds(),
                ).error,
            decreases scan.bytes@.len(),
        {
            let ghost before = scan;
            let result = scan.value(0);
            if let Err(error) = result {
                return Err(error);
            }
            proof {
                lemma_value_takes(before.rest(), before.node_count(), before.limits, 0);
            }
        }
        Ok(())
    }

    /// Validate one value at the given initial nesting depth.
    pub fn value(&mut self, depth: usize) -> (result: Result<(), AdmissionError>)
        requires
            depth_countable(old(self).bounds(), depth as nat, old(self).rest().len()),
        ensures
            ({
                let scanned = value(
                    old(self).rest(),
                    old(self).node_count(),
                    old(self).bounds(),
                    depth as nat,
                );
                final(self).moved(old(self), scanned) && result == as_result(scanned.error)
            }),
        decreases room(old(self).bounds(), depth as nat), 2nat,
    {
        let ghost before = *self;
        let head = self.constructor(depth);
        let (code, inner) = match head {
            Ok(head) => head,
            Err(error) => return Err(error),
        };
        let ghost middle = *self;
        let result = self.payload(code, inner);
        proof {
            let spec_head = constructor(
                before.rest(),
                before.node_count(),
                before.bounds(),
                depth as nat,
            );
            assert(spec_head.scanned.error is None);
            let body = payload(
                middle.rest(),
                code,
                middle.node_count(),
                before.bounds(),
                inner as nat,
            );
            assert(before.rest().skip(spec_head.scanned.used as int).skip(body.used as int)
                == before.rest().skip((spec_head.scanned.used + body.used) as int));
        }
        result
    }

    /// Reads the descriptors and the format code of a value at `depth`.
    fn constructor(&mut self, depth: usize) -> (result: Result<(u8, usize), AdmissionError>)
        requires
            depth_countable(old(self).bounds(), depth as nat, old(self).rest().len()),
        ensures
            ({
                let head = constructor(
                    old(self).rest(),
                    old(self).node_count(),
                    old(self).bounds(),
                    depth as nat,
                );
                &&& final(self).moved(old(self), head.scanned)
                &&& match result {
                    Ok((code, inner)) => {
                        &&& head.scanned.error is None
                        &&& code == head.code
                        &&& inner == head.depth
                        &&& inner >= depth
                        &&& depth_countable(
                            final(self).bounds(),
                            inner as nat,
                            final(self).rest().len(),
                        )
                        &&& is_format_code(code)
                    },
                    Err(error) => head.scanned.error == Some(error),
                }
            }),
        decreases room(old(self).bounds(), depth as nat), 1nat,
    {
        let ghost before = *self;
        proof {
            lemma_number_fits(before.rest(), 1);
            assert(before.rest().skip(0) == before.rest());
        }
        if depth > self.limits.depth {
            return Err(AdmissionError::Limit);
        }
        let code = match self.number(1) {
            Ok(code) => code as u8,
            Err(error) => return Err(error),
        };
        assert(code == before.rest()[0]);
        if code == 0 {
            proof {
                lemma_number_fits(self.rest(), 1);
                if before.rest().len() >= 2 {
                    assert(before.rest().skip(1).skip(1) == before.rest().skip(2));
                }
            }
            // A descriptor is an unsigned long or symbol, never arbitrary nested data.
            let descriptor = match self.number(1) {
                Ok(descriptor) => descriptor as u8,
                Err(error) => return Err(error),
            };
            assert(descriptor == before.rest()[1]);
            if !matches!(descriptor, 0x44 | 0x53 | 0x80 | 0xa3 | 0xb3) {
                return Err(AdmissionError::Invalid);
            }
            let ghost scanned = leaf(
                before.rest().skip(2),
                descriptor,
                before.node_count(),
                before.bounds(),
                (depth + 1) as nat,
            );
            let result = self.payload(descriptor, depth + 1);
            proof {
                assert(before.rest().skip(2).skip(scanned.used as int) == before.rest().skip(
                    (2 + scanned.used) as int,
                ));
            }
            if let Err(error) = result {
                return Err(error);
            }
            let ghost middle = *self;
            let result = self.constructor(depth + 1);
            proof {
                let rest = constructor(
                    middle.rest(),
                    middle.node_count(),
                    before.bounds(),
                    (depth + 1) as nat,
                );
                assert(before.rest().skip((2 + scanned.used) as int).skip(rest.scanned.used as int)
                    == before.rest().skip((2 + scanned.used + rest.scanned.used) as int));
            }
            result
        } else {
            if !known_format_code(code) {
                return Err(AdmissionError::Invalid);
            }
            Ok((code, depth))
        }
    }

    /// Reads the bytes after the constructor `code`.
    fn payload(&mut self, code: u8, depth: usize) -> (result: Result<(), AdmissionError>)
        requires
            depth_countable(old(self).bounds(), depth as nat, old(self).rest().len()),
        ensures
            ({
                let scanned = payload(
                    old(self).rest(),
                    code,
                    old(self).node_count(),
                    old(self).bounds(),
                    depth as nat,
                );
                final(self).moved(old(self), scanned) && result == as_result(scanned.error)
            }),
        decreases room(old(self).bounds(), depth as nat), 0nat,
    {
        let ghost before = *self;
        proof {
            assert(before.rest().skip(0) == before.rest());
            lemma_number_fits(before.rest(), 1);
            lemma_number_fits(before.rest(), 4);
        }
        if self.nodes == usize::MAX {
            return Err(AdmissionError::Invalid);
        }
        self.nodes = self.nodes + 1;
        if depth > self.limits.depth || self.nodes > self.limits.nodes {
            return Err(AdmissionError::Limit);
        }
        match code {
            0xa0 | 0xa1 | 0xa3 | 0xb0 | 0xb1 | 0xb3 => self.variable(code),
            0xc0 | 0xc1 | 0xd0 | 0xd1 | 0xe0 | 0xf0 => self.compound(code, depth),
            _ => self.fixed(code),
        }
    }

    /// Reads a value of fixed width, whose node is counted.
    fn fixed(&mut self, code: u8) -> (result: Result<(), AdmissionError>)
        requires
            !is_variable(code),
        ensures
            ({
                let scanned = counted_leaf(old(self).rest(), code, old(self).node_count());
                final(self).moved(old(self), scanned) && result == as_result(scanned.error)
            }),
    {
        proof {
            assert(self.rest().skip(0) == self.rest());
            lemma_number_fits(self.rest(), 1);
            lemma_number_fits(self.rest(), 4);
        }
        match code {
            0x40..=0x45 => Ok(()),
            0x50..=0x55 => self.skip(1),
            0x56 => {
                let flag = match self.number(1) {
                    Ok(flag) => flag,
                    Err(error) => return Err(error),
                };
                if flag > 1 {
                    return Err(AdmissionError::Invalid);
                }
                Ok(())
            },
            0x60 | 0x61 => self.skip(2),
            0x70..=0x72 | 0x74 => self.skip(4),
            0x73 => {
                let scalar = match self.number(4) {
                    Ok(scalar) => scalar,
                    Err(error) => return Err(error),
                };
                if !(scalar < 0xD800 || 0xE000 <= scalar && scalar <= 0x10FFFF) {
                    return Err(AdmissionError::Invalid);
                }
                Ok(())
            },
            0x80..=0x84 => self.skip(8),
            0x94 | 0x98 => self.skip(16),
            _ => Err(AdmissionError::Invalid),
        }
    }

    /// Reads a binary, a string or a symbol, whose node is counted.
    fn variable(&mut self, code: u8) -> (result: Result<(), AdmissionError>)
        requires
            is_variable(code),
        ensures
            ({
                let scanned = counted_leaf(old(self).rest(), code, old(self).node_count());
                final(self).moved(old(self), scanned) && result == as_result(scanned.error)
            }),
    {
        let ghost before = *self;
        proof {
            assert(before.rest().skip(0) == before.rest());
            lemma_number_fits(before.rest(), 1);
            lemma_number_fits(before.rest(), 4);
        }
        let width: usize = if code < 0xb0 {
            1
        } else {
            4
        };
        let n = match self.number(width) {
            Ok(n) => n,
            Err(error) => return Err(error),
        };
        proof {
            if width + n <= before.rest().len() {
                assert(before.rest().skip(width as int).take(n as int)
                    == before.rest().subrange(width as int, width + n));
                assert(before.rest().skip(width as int).skip(n as int)
                    == before.rest().skip(width + n));
            }
        }
        let bytes = match self.take(n) {
            Ok(bytes) => bytes,
            Err(error) => return Err(error),
        };
        if matches!(code, 0xa1 | 0xb1) && !is_utf8(bytes) {
            return Err(AdmissionError::Invalid);
        }
        if matches!(code, 0xa3 | 0xb3) && !is_ascii(bytes) {
            return Err(AdmissionError::Invalid);
        }
        Ok(())
    }

    /// Reads a list, a map or an array at `depth`, whose node is counted.
    fn compound(&mut self, code: u8, depth: usize) -> (result: Result<(), AdmissionError>)
        requires
            is_compound(code),
            1 <= old(self).node_count() <= old(self).bounds().nodes,
            depth <= old(self).bounds().depth,
            depth_countable(old(self).bounds(), depth as nat, old(self).rest().len()),
        ensures
            ({
                let scanned = payload(
                    old(self).rest(),
                    code,
                    (old(self).node_count() - 1) as nat,
                    old(self).bounds(),
                    depth as nat,
                );
                final(self).moved(old(self), scanned) && result == as_result(scanned.error)
            }),
        decreases room(old(self).bounds(), (depth + 1) as nat), 5nat,
    {
        let ghost before = *self;
        proof {
            assert(before.rest().skip(0) == before.rest());
            lemma_number_fits(before.rest(), 1);
            lemma_number_fits(before.rest(), 4);
        }
        let width: usize = if matches!(code, 0xc0 | 0xc1 | 0xe0) {
            1
        } else {
            4
        };
        let size = match self.number(width) {
            Ok(size) => size,
            Err(error) => return Err(error),
        };
        proof {
            if width + size <= before.rest().len() {
                assert(before.rest().skip(width as int).take(size as int)
                    == before.rest().subrange(width as int, width + size));
                assert(before.rest().skip(width as int).skip(size as int)
                    == before.rest().skip(width + size));
            }
        }
        let inner = match self.take(size) {
            Ok(inner) => inner,
            Err(error) => return Err(error),
        };
        let mut child = Scan { bytes: inner, nodes: self.nodes, limits: self.limits };
        // The enclosing compound is already present in full. A short
        // child is malformed, rather than a request for more wire bytes.
        match child.contents(code, depth + 1) {
            Err(AdmissionError::Limit) => return Err(AdmissionError::Limit),
            Err(_) => return Err(AdmissionError::Invalid),
            Ok(()) => {},
        }
        if !child.bytes.is_empty() {
            return Err(AdmissionError::Invalid);
        }
        self.nodes = child.nodes;
        Ok(())
    }

    /// Takes `n` bytes and looks at none of them.
    fn skip(&mut self, n: usize) -> (result: Result<(), AdmissionError>)
        ensures
            n > old(self).rest().len() ==> result == Err::<(), AdmissionError>(
                AdmissionError::Incomplete,
            ) && *final(self) == *old(self),
            n <= old(self).rest().len() ==> {
                &&& result == Ok::<(), AdmissionError>(())
                &&& final(self).rest() == old(self).rest().skip(n as int)
                &&& final(self).node_count() == old(self).node_count()
                &&& final(self).bounds() == old(self).bounds()
            },
    {
        match self.take(n) {
            Ok(_) => Ok(()),
            Err(error) => Err(error),
        }
    }

    /// Reads the count and the elements of a compound of format code `code`.
    fn contents(&mut self, code: u8, depth: usize) -> (result: Result<(), AdmissionError>)
        requires
            is_compound(code),
            depth_countable(old(self).bounds(), depth as nat, old(self).rest().len()),
            old(self).node_count() <= old(self).bounds().nodes,
        ensures
            ({
                let scanned = contents(
                    old(self).rest(),
                    code,
                    old(self).node_count(),
                    old(self).bounds(),
                    depth as nat,
                );
                final(self).moved(old(self), scanned) && result == as_result(scanned.error)
            }),
        decreases room(old(self).bounds(), depth as nat), 4nat,
    {
        let ghost before = *self;
        proof {
            assert(before.rest().skip(0) == before.rest());
            lemma_number_fits(before.rest(), 1);
            lemma_number_fits(before.rest(), 4);
        }
        let width: usize = if matches!(code, 0xc0 | 0xc1 | 0xe0) {
            1
        } else {
            4
        };
        let count = match self.number(width) {
            Ok(count) => count,
            Err(error) => return Err(error),
        };
        if matches!(code, 0xc1 | 0xd1) && count % 2 != 0 {
            return Err(AdmissionError::Invalid);
        }
        if count > self.limits.nodes - self.nodes {
            return Err(AdmissionError::Limit);
        }
        let ghost start = *self;
        if matches!(code, 0xe0 | 0xf0) {
            let head = self.constructor(depth);
            let ghost begun = *self;
            let ghost used = constructor(
                start.rest(),
                start.node_count(),
                before.bounds(),
                depth as nat,
            ).scanned.used;
            assert(before.rest().skip(width as int).skip(used as int) == before.rest().skip(
                width + used,
            ));
            let (element, element_depth) = match head {
                Ok(head) => head,
                Err(error) => return Err(error),
            };
            if element == 0x40 {
                return Err(AdmissionError::Invalid);
            }
            let result = self.repeated(element, count, element_depth);
            proof {
                let items = repeated(
                    begun.rest(),
                    element,
                    count as nat,
                    begun.node_count(),
                    before.bounds(),
                    element_depth as nat,
                );
                assert(before.rest().skip(width + used).skip(items.used as int)
                    == before.rest().skip(width + used + items.used));
            }
            result
        } else {
            let result = self.elements(count, depth);
            proof {
                let items = elements(
                    start.rest(),
                    count as nat,
                    start.node_count(),
                    before.bounds(),
                    depth as nat,
                );
                assert(before.rest().skip(width as int).skip(items.used as int)
                    == before.rest().skip(width + items.used));
            }
            result
        }
    }

    /// Reads `count` values.
    fn elements(&mut self, count: usize, depth: usize) -> (result: Result<(), AdmissionError>)
        requires
            depth_countable(old(self).bounds(), depth as nat, old(self).rest().len()),
        ensures
            ({
                let scanned = elements(
                    old(self).rest(),
                    count as nat,
                    old(self).node_count(),
                    old(self).bounds(),
                    depth as nat,
                );
                final(self).moved(old(self), scanned) && result == as_result(scanned.error)
            }),
        decreases room(old(self).bounds(), depth as nat), 3nat,
    {
        let ghost whole = elements(
            self.rest(),
            count as nat,
            self.node_count(),
            self.bounds(),
            depth as nat,
        );
        let mut i: usize = 0;
        let ghost mut used: nat = 0;
        assert(self.rest().skip(0) == self.rest());
        while i < count
            invariant
                i <= count,
                used <= old(self).rest().len(),
                self.rest() == old(self).rest().skip(used as int),
                self.bounds() == old(self).bounds(),
                depth_countable(old(self).bounds(), depth as nat, old(self).rest().len()),
                whole == elements(
                    old(self).rest(),
                    count as nat,
                    old(self).node_count(),
                    old(self).bounds(),
                    depth as nat,
                ),
                ({
                    let left = elements(
                        self.rest(),
                        (count - i) as nat,
                        self.node_count(),
                        self.bounds(),
                        depth as nat,
                    );
                    whole == Scanned { used: used + left.used, ..left }
                }),
            decreases count - i,
        {
            let ghost first = value(self.rest(), self.node_count(), self.bounds(), depth as nat);
            let result = self.value(depth);
            proof {
                assert(old(self).rest().skip(used as int).skip(first.used as int)
                    == old(self).rest().skip((used + first.used) as int));
                used = used + first.used;
            }
            if let Err(error) = result {
                return Err(error);
            }
            i += 1;
        }
        Ok(())
    }

    /// Reads `count` array elements of format code `code`.
    fn repeated(&mut self, code: u8, count: usize, depth: usize) -> (result: Result<
        (),
        AdmissionError,
    >)
        requires
            depth_countable(old(self).bounds(), depth as nat, old(self).rest().len()),
        ensures
            ({
                let scanned = repeated(
                    old(self).rest(),
                    code,
                    count as nat,
                    old(self).node_count(),
                    old(self).bounds(),
                    depth as nat,
                );
                final(self).moved(old(self), scanned) && result == as_result(scanned.error)
            }),
        decreases room(old(self).bounds(), depth as nat), 1nat,
    {
        let ghost whole = repeated(
            self.rest(),
            code,
            count as nat,
            self.node_count(),
            self.bounds(),
            depth as nat,
        );
        let mut i: usize = 0;
        let ghost mut used: nat = 0;
        assert(self.rest().skip(0) == self.rest());
        while i < count
            invariant
                i <= count,
                used <= old(self).rest().len(),
                self.rest() == old(self).rest().skip(used as int),
                self.bounds() == old(self).bounds(),
                depth_countable(old(self).bounds(), depth as nat, old(self).rest().len()),
                whole == repeated(
                    old(self).rest(),
                    code,
                    count as nat,
                    old(self).node_count(),
                    old(self).bounds(),
                    depth as nat,
                ),
                ({
                    let left = repeated(
                        self.rest(),
                        code,
                        (count - i) as nat,
                        self.node_count(),
                        self.bounds(),
                        depth as nat,
                    );
                    whole == Scanned { used: used + left.used, ..left }
                }),
            decreases count - i,
        {
            let ghost first = payload(
                self.rest(),
                code,
                self.node_count(),
                self.bounds(),
                depth as nat,
            );
            let result = self.payload(code, depth);
            proof {
                assert(old(self).rest().skip(used as int).skip(first.used as int)
                    == old(self).rest().skip((used + first.used) as int));
                used = used + first.used;
            }
            if let Err(error) = result {
                return Err(error);
            }
            i += 1;
        }
        Ok(())
    }
}

/// Values one after the other until no byte is left.
pub open spec fn every_value(bytes: Seq<u8>, nodes: nat, limits: Limits) -> Scanned
    decreases bytes.len(),
{
    let first = value(bytes, nodes, limits, 0);
    if bytes.len() == 0 {
        Scanned { used: 0, nodes, error: None }
    } else if first.error is Some {
        first
    } else {
        proof {
            lemma_value_takes(bytes, nodes, limits, 0);
        }
        let rest = every_value(bytes.skip(first.used as int), first.nodes, limits);
        Scanned { used: first.used + rest.used, ..rest }
    }
}

/// A constructor takes at least its format code, and no more than there is.
pub proof fn lemma_constructor_takes(bytes: Seq<u8>, nodes: nat, limits: Limits, depth: nat)
    ensures
        constructor(bytes, nodes, limits, depth).scanned.used <= bytes.len(),
        constructor(bytes, nodes, limits, depth).scanned.error is None ==> constructor(
            bytes,
            nodes,
            limits,
            depth,
        ).scanned.used >= 1,
    decreases room(limits, depth),
{
    if depth <= limits.depth && bytes.len() >= 2 && bytes[0] == 0 && is_descriptor_code(bytes[1]) {
        let descriptor = leaf(bytes.skip(2), bytes[1], nodes, limits, depth + 1);
        let taken = 2 + descriptor.used;
        if descriptor.error is None {
            lemma_constructor_takes(bytes.skip(taken as int), descriptor.nodes, limits, depth + 1);
        }
    }
}

/// A value takes no more than there is, and an admitted one at least its format code.
pub proof fn lemma_value_takes(bytes: Seq<u8>, nodes: nat, limits: Limits, depth: nat)
    ensures
        value(bytes, nodes, limits, depth).used <= bytes.len(),
        value(bytes, nodes, limits, depth).error is None ==> value(
            bytes,
            nodes,
            limits,
            depth,
        ).used >= 1,
{
    lemma_constructor_takes(bytes, nodes, limits, depth);
}

/// The encoded length of the value at the front of `bytes`, under the codec limits.
pub open spec fn extent(bytes: Seq<u8>) -> Result<nat, AdmissionError> {
    let scanned = value(bytes, 0, default_limits(), 0);
    match scanned.error {
        None => Ok(scanned.used),
        Some(error) => Err(error),
    }
}

/// Whether `bytes` are one constructor that may be shared by the elements of an array.
pub open spec fn array_constructor(bytes: Seq<u8>) -> Result<(), AdmissionError> {
    let head = constructor(bytes, 0, default_limits(), 0);
    match head.scanned.error {
        Some(error) => Err(error),
        None => if head.code == 0x40 || head.scanned.used != bytes.len() {
            Err(AdmissionError::Invalid)
        } else {
            Ok(())
        },
    }
}

/// Validate an array element constructor without materializing a value.
pub fn validate_array_constructor(bytes: &[u8]) -> (result: Result<(), AdmissionError>)
    ensures
        result == array_constructor(bytes@),
{
    let mut scan = Scan::new(bytes);
    let (code, _) = match scan.constructor(0) {
        Ok(head) => head,
        Err(error) => return Err(error),
    };
    if code == 0x40 || !scan.remaining().is_empty() {
        return Err(AdmissionError::Invalid);
    }
    Ok(())
}

/// Validate one value and return its exact encoded length without consuming a following payload.
pub fn value_extent(bytes: &[u8]) -> (result: Result<usize, AdmissionError>)
    ensures
        match result {
            Ok(length) => extent(bytes@) == Ok::<nat, AdmissionError>(length as nat) && 1 <= length
                <= bytes@.len(),
            Err(error) => extent(bytes@) == Err::<nat, AdmissionError>(error),
        },
{
    let mut scan = Scan::new(bytes);
    if let Err(error) = scan.value(0) {
        return Err(error);
    }
    proof {
        lemma_value_takes(bytes@, 0, default_limits(), 0);
    }
    Ok(bytes.len() - scan.remaining().len())
}

} // verus!
