//! Configuration values the library reads: the i2c bus settings, the
//! driver's timings and the bulb topology, with the topology's validation.

use std::time::Duration;
use validator::ValidationError;
use vstd::prelude::*;

use crate::topology::DISABLED_ADDRESS;
use crate::topology::INNER_COUNT;
use crate::topology::MAX_VALID_ADDRESS;
use crate::topology::MIN_VALID_ADDRESS;
use crate::topology::OUTER_COUNT;

verus! {

broadcast use vstd::std_specs::hash::group_hash_axioms;

// ---------------------------------------------------------------------------
// Durations
// ---------------------------------------------------------------------------

/// The `Duration` of `ms` milliseconds, as `Duration::from_millis` builds it.
pub uninterp spec fn millis_duration(ms: u64) -> Duration;

/// The `Duration` of `s` whole seconds, as `Duration::from_secs` builds it.
pub uninterp spec fn secs_duration(s: u64) -> Duration;

/// Calls `std::time::Duration::from_millis`; the result is the duration of
/// `ms` milliseconds, which the contract names `millis_duration(ms)`.
#[verifier::external_body]
fn duration_from_millis(ms: u64) -> (d: Duration)
    ensures
        d == millis_duration(ms),
{
    Duration::from_millis(ms)
}

/// Calls `std::time::Duration::from_secs`; the result is the duration of
/// `s` seconds, which the contract names `secs_duration(s)`.
#[verifier::external_body]
fn duration_from_secs(s: u64) -> (d: Duration)
    ensures
        d == secs_duration(s),
{
    Duration::from_secs(s)
}

// ---------------------------------------------------------------------------
// i2c bus settings
// ---------------------------------------------------------------------------

/// Settings of the i2c bus.
#[derive(Debug, Clone)]
pub struct I2c {
    pub device_path: String,
    pub retries: usize,
    pub retry_delay_ms: u64,
    pub rate_limit_ms: u64,
}

impl I2c {
    /// Pause between two attempts of a failed transfer.
    pub fn retry_delay(&self) -> (d: Duration)
        ensures
            d == millis_duration(self.retry_delay_ms),
    {
        duration_from_millis(self.retry_delay_ms)
    }

    /// Pause counted from the first transfer to an address: later transfers
    /// to it wait until that first transfer plus this period.
    pub fn rate_limit(&self) -> (d: Duration)
        ensures
            d == millis_duration(self.rate_limit_ms),
    {
        duration_from_millis(self.rate_limit_ms)
    }
}

impl Default for I2c {
    fn default() -> (r: Self)
        ensures
            r.device_path@ == "/dev/i2c-1"@,
            r.retries == 3,
            r.retry_delay_ms == 20,
            r.rate_limit_ms == 40,
    {
        I2c {
            device_path: String::from_str("/dev/i2c-1"),
            retries: 3,
            retry_delay_ms: 20,
            rate_limit_ms: 40,
        }
    }
}

// ---------------------------------------------------------------------------
// Driver timings
// ---------------------------------------------------------------------------

/// The driver's timings. (The drift tolerance, a float, is kept by the
/// caller, which alone compares it.)
#[derive(Debug, Clone)]
pub struct Driver {
    pub zero_timeout_secs: u64,
    pub refresh_interval_secs: u64,
}

impl Driver {
    /// How long zeroing may take before it is given up.
    pub fn zero_timeout(&self) -> (d: Duration)
        ensures
            d == secs_duration(self.zero_timeout_secs),
    {
        duration_from_secs(self.zero_timeout_secs)
    }

    /// Time between two telemetry refreshes while cycling.
    pub fn refresh_interval(&self) -> (d: Duration)
        ensures
            d == secs_duration(self.refresh_interval_secs),
    {
        duration_from_secs(self.refresh_interval_secs)
    }
}

impl Default for Driver {
    fn default() -> (r: Self)
        ensures
            r.zero_timeout_secs == 60,
            r.refresh_interval_secs == 1,
    {
        Driver { zero_timeout_secs: 60, refresh_interval_secs: 1 }
    }
}


// ---------------------------------------------------------------------------
// Topology
// ---------------------------------------------------------------------------

/// Maps logical bulb positions to i2c addresses.
///
/// `inner` holds one address per inner-ring bulb and `outer` one per
/// outer-ring bulb. Each address is a legal 7-bit i2c slave address
/// (0x08..=0x77) or [`DISABLED_ADDRESS`], which marks a position that is not
/// wired up; the driver skips disabled positions.
#[derive(Debug, Clone)]
pub struct Topology {
    pub center: u16,
    pub inner: Vec<u16>,
    pub outer: Vec<u16>,
}

impl Topology {
    /// Every position's address in order: center, inner ring, outer ring.
    pub open spec fn addresses(self) -> Seq<u16> {
        seq![self.center] + self.inner@ + self.outer@
    }
}

/// The address is not the disabled sentinel.
pub open spec fn is_enabled(address: u16) -> bool {
    address != DISABLED_ADDRESS
}

/// The address is a legal 7-bit i2c slave address.
pub open spec fn is_legal_address(address: u16) -> bool {
    MIN_VALID_ADDRESS <= address <= MAX_VALID_ADDRESS
}

/// Position `i` is enabled and its address is not legal.
pub open spec fn out_of_range_at(s: Seq<u16>, i: int) -> bool {
    is_enabled(s[i]) && !is_legal_address(s[i])
}

/// Position `i` is enabled and an earlier position has the same address.
pub open spec fn repeated_at(s: Seq<u16>, i: int) -> bool {
    is_enabled(s[i]) && exists|j: int| 0 <= j < i && #[trigger] s[j] == s[i]
}

/// Position `i` breaks one of the address rules.
pub open spec fn fails_at(s: Seq<u16>, i: int) -> bool {
    out_of_range_at(s, i) || repeated_at(s, i)
}

/// `k` is the first position that breaks an address rule.
pub open spec fn first_failure(s: Seq<u16>, k: int) -> bool {
    &&& 0 <= k < s.len()
    &&& fails_at(s, k)
    &&& forall|j: int| 0 <= j < k ==> !#[trigger] fails_at(s, j)
}

/// Why a topology was refused.
#[derive(Clone, Copy, Debug, PartialEq, Eq)]
pub enum TopologyError {
    /// The inner ring does not have [`INNER_COUNT`] addresses.
    InnerCount,
    /// The outer ring does not have [`OUTER_COUNT`] addresses.
    OuterCount,
    /// An enabled position has an address outside 0x08..=0x77.
    AddressOutOfRange,
    /// Two enabled positions share an address.
    DuplicateAddress,
}

impl TopologyError {
    pub open spec fn spec_message(self) -> Seq<char> {
        match self {
            TopologyError::InnerCount => "topology.inner must have 6 addresses"@,
            TopologyError::OuterCount => "topology.outer must have 12 addresses"@,
            TopologyError::AddressOutOfRange => "All i2c addresses must be 0x08-0x77"@,
            TopologyError::DuplicateAddress => "All i2c addresses must be unique"@,
        }
    }

    /// The validation code reported for this error.
    pub fn message(&self) -> (r: &'static str)
        ensures
            r@ == self.spec_message(),
    {
        match self {
            TopologyError::InnerCount => "topology.inner must have 6 addresses",
            TopologyError::OuterCount => "topology.outer must have 12 addresses",
            TopologyError::AddressOutOfRange => "All i2c addresses must be 0x08-0x77",
            TopologyError::DuplicateAddress => "All i2c addresses must be unique",
        }
    }
}

/// What validating a topology gives: the ring sizes are checked first, then
/// the positions in order (center, inner, outer); the first position that is
/// enabled and either out of the legal range or a repeat of an earlier
/// enabled address decides the error.
pub open spec fn topology_verdict(t: Topology) -> Result<(), TopologyError> {
    if t.inner@.len() != INNER_COUNT as nat {
        Err(TopologyError::InnerCount)
    } else if t.outer@.len() != OUTER_COUNT as nat {
        Err(TopologyError::OuterCount)
    } else if exists|k: int| first_failure(t.addresses(), k) {
        let k = choose|k: int| first_failure(t.addresses(), k);
        if out_of_range_at(t.addresses(), k) {
            Err(TopologyError::AddressOutOfRange)
        } else {
            Err(TopologyError::DuplicateAddress)
        }
    } else {
        Ok(())
    }
}

/// A topology the driver can use: right ring sizes, every enabled address
/// legal, no enabled address used twice.
pub open spec fn topology_is_valid(t: Topology) -> bool {
    &&& t.inner@.len() == INNER_COUNT as nat
    &&& t.outer@.len() == OUTER_COUNT as nat
    &&& forall|i: int|
        0 <= i < t.addresses().len() && is_enabled(#[trigger] t.addresses()[i]) ==> is_legal_address(
            t.addresses()[i],
        )
    &&& forall|i: int, j: int|
        0 <= i < j < t.addresses().len() && is_enabled(t.addresses()[i]) ==> #[trigger] t.addresses()[i]
            != #[trigger] t.addresses()[j]
}

proof fn lemma_first_failure_unique(s: Seq<u16>, k1: int, k2: int)
    requires
        first_failure(s, k1),
        first_failure(s, k2),
    ensures
        k1 == k2,
{
    if k1 < k2 {
        assert(!fails_at(s, k1));
    } else if k2 < k1 {
        assert(!fails_at(s, k2));
    }
}

/// The verdict is `Ok` exactly on valid topologies.
pub proof fn lemma_verdict_ok_iff_valid(t: Topology)
    ensures
        topology_verdict(t) is Ok <==> topology_is_valid(t),
{
    let s = t.addresses();
    if t.inner@.len() == INNER_COUNT as nat && t.outer@.len() == OUTER_COUNT as nat {
        if exists|k: int| first_failure(s, k) {
            let k = choose|k: int| first_failure(s, k);
            if out_of_range_at(s, k) {
                assert(is_enabled(s[k]));
            } else {
                let j = choose|j: int| 0 <= j < k && #[trigger] s[j] == s[k];
                assert(s[j] == s[k]);
            }
        } else {
            assert forall|i: int| 0 <= i < s.len() implies !#[trigger] fails_at(s, i) by {
                lemma_no_failure_before(s, i);
            }
            assert forall|i: int|
                0 <= i < s.len() && is_enabled(#[trigger] s[i]) implies is_legal_address(s[i]) by {
                assert(!fails_at(s, i));
            }
            assert forall|i: int, j: int|
                0 <= i < j < s.len() && is_enabled(s[i]) implies #[trigger] s[i] != #[trigger] s[j] by {
                assert(!fails_at(s, j));
                if s[i] == s[j] {
                    assert(repeated_at(s, j));
                }
            }
            assert(topology_is_valid(t));
        }
    }
}

/// With no first failure in `s`, no position of `s` fails.
proof fn lemma_no_failure_before(s: Seq<u16>, i: int)
    requires
        0 <= i < s.len(),
        !exists|k: int| first_failure(s, k),
    ensures
        !fails_at(s, i),
    decreases i,
{
    if fails_at(s, i) {
        assert forall|j: int| 0 <= j < i implies !#[trigger] fails_at(s, j) by {
            lemma_no_failure_before(s, j);
        }
        assert(first_failure(s, i));
    }
}

/// The validation error of the `validator` crate, carried opaquely.
#[verifier::external_type_specification]
#[verifier::external_body]
pub struct ExValidationError(ValidationError);

/// Calls `validator::ValidationError::new`: the error's `code` field holds
/// the given code, its `message` is `None` and its `params` map is empty.
/// (The map's hasher, seeded afresh for each map, is not stated.)
#[verifier::external_body]
fn validation_error(code: &'static str) -> (e: ValidationError)
    ensures
        validation_parts(e) == (code@, None::<Seq<char>>, 0nat),
{
    ValidationError::new(code)
}

/// What a validation error shows: its `code`, its `message` (if any) and
/// the number of entries in its `params` map.
pub uninterp spec fn validation_parts(e: ValidationError) -> (Seq<char>, Option<Seq<char>>, nat);

/// Checks a topology and names the first rule it breaks.
pub fn check_topology(topology: &Topology) -> (r: Result<(), TopologyError>)
    ensures
        r == topology_verdict(*topology),
{
    let inner_expected = INNER_COUNT as usize;
    let outer_expected = OUTER_COUNT as usize;
    if topology.inner.len() != inner_expected {
        return Err(TopologyError::InnerCount);
    }
    if topology.outer.len() != outer_expected {
        return Err(TopologyError::OuterCount);
    }
    let ghost s = topology.addresses();
    let mut positions: Vec<u16> = Vec::new();
    positions.push(topology.center);
    let mut n: usize = 0;
    while n < topology.inner.len()
        invariant
            n <= topology.inner.len(),
            positions@ == seq![topology.center] + topology.inner@.take(n as int),
        decreases topology.inner.len() - n,
    {
        positions.push(topology.inner[n]);
        n = n + 1;
        assert(topology.inner@.take(n as int) == topology.inner@.take(n - 1).push(topology.inner@[n - 1]));
    }
    assert(topology.inner@.take(n as int) == topology.inner@);
    let mut m: usize = 0;
    while m < topology.outer.len()
        invariant
            m <= topology.outer.len(),
            positions@ == seq![topology.center] + topology.inner@ + topology.outer@.take(m as int),
        decreases topology.outer.len() - m,
    {
        positions.push(topology.outer[m]);
        m = m + 1;
        assert(topology.outer@.take(m as int) == topology.outer@.take(m - 1).push(topology.outer@[m - 1]));
    }
    assert(topology.outer@.take(m as int) == topology.outer@);
    assert(positions@ == s);

    // Every enabled address seen so far, with the position it was seen at.
    let mut seen: std::collections::HashMap<u16, usize> = std::collections::HashMap::new();
    let mut i: usize = 0;
    while i < positions.len()
        invariant
            positions@ == s,
            s == topology.addresses(),
            topology.inner@.len() == INNER_COUNT as nat,
            topology.outer@.len() == OUTER_COUNT as nat,
            i <= s.len(),
            forall|j: int| 0 <= j < i ==> !#[trigger] fails_at(s, j),
            forall|a: u16|
                #[trigger] seen@.contains_key(a) <==> exists|j: int|
                    0 <= j < i && is_enabled(s[j]) && #[trigger] s[j] == a,
        decreases s.len() - i,
    {
        let address = positions[i];
        if address == DISABLED_ADDRESS {
            i = i + 1;
            continue;
        }
        if !(MIN_VALID_ADDRESS <= address && address <= MAX_VALID_ADDRESS) {
            proof {
                assert(first_failure(s, i as int));
                lemma_first_failure_unique(s, i as int, choose|k: int| first_failure(s, k));
            }
            return Err(TopologyError::AddressOutOfRange);
        }
        let previous = seen.insert(address, i);
        if previous.is_some() {
            proof {
                let j = choose|j: int| 0 <= j < i && is_enabled(s[j]) && #[trigger] s[j] == address;
                assert(s[j] == s[i as int]);
                assert(repeated_at(s, i as int));
                assert(first_failure(s, i as int));
                lemma_first_failure_unique(s, i as int, choose|k: int| first_failure(s, k));
            }
            return Err(TopologyError::DuplicateAddress);
        }
        proof {
            assert(!repeated_at(s, i as int)) by {
                if repeated_at(s, i as int) {
                    let j = choose|j: int| 0 <= j < i && #[trigger] s[j] == s[i as int];
                    assert(seen@.contains_key(s[j]) == false);
                }
            }
        }
        i = i + 1;
    }
    proof {
        if exists|k: int| first_failure(s, k) {
            let k = choose|k: int| first_failure(s, k);
            assert(!fails_at(s, k));
        }
    }
    Ok(())
}

/// Validates a topology for the configuration loader: `Ok` on a valid
/// topology, else a validation error whose code names the first broken
/// rule, with no message and no parameters.
pub fn validate_topology(topology: &Topology) -> (r: Result<(), ValidationError>)
    ensures
        match topology_verdict(*topology) {
            Ok(()) => r is Ok,
            Err(e) => r matches Err(v) && validation_parts(v) == (
                e.spec_message(),
                None::<Seq<char>>,
                0nat,
            ),
        },
{
    match check_topology(topology) {
        Ok(()) => Ok(()),
        Err(e) => Err(validation_error(e.message())),
    }
}

/// The default topology passes validation: every position is enabled, with
/// the consecutive addresses 0x08..=0x1A.
pub proof fn lemma_default_topology_is_valid(t: Topology)
    requires
        t.center == 0x08,
        t.inner@ == Seq::new(6, |i: int| (0x09 + i) as u16),
        t.outer@ == Seq::new(12, |i: int| (0x0F + i) as u16),
    ensures
        topology_verdict(t) == Ok::<(), TopologyError>(()),
{
    let a = t.addresses();
    assert forall|k: int| 0 <= k < a.len() implies #[trigger] a[k] == 0x08 + k by {
        if k >= 1 && k < 7 {
            assert(a[k] == t.inner@[k - 1]);
        } else if k >= 7 {
            assert(a[k] == t.outer@[k - 7]);
        }
    }
    lemma_verdict_ok_iff_valid(t);
}

impl Default for Topology {
    fn default() -> (r: Self)
        ensures
            r.center == 0x08,
            r.inner@ == Seq::new(6, |i: int| (0x09 + i) as u16),
            r.outer@ == Seq::new(12, |i: int| (0x0F + i) as u16),
    {
        let mut inner: Vec<u16> = Vec::new();
        let mut a: u16 = 0x09;
        while a <= 0x0E
            invariant
                0x09 <= a <= 0x0F,
                inner@ == Seq::new((a - 0x09) as nat, |i: int| (0x09 + i) as u16),
            decreases 0x0F - a,
        {
            inner.push(a);
            a = a + 1;
        }
        let mut outer: Vec<u16> = Vec::new();
        let mut b: u16 = 0x0F;
        while b <= 0x1A
            invariant
                0x0F <= b <= 0x1B,
                outer@ == Seq::new((b - 0x0F) as nat, |i: int| (0x0F + i) as u16),
            decreases 0x1B - b,
        {
            outer.push(b);
            b = b + 1;
        }
        Topology { center: 0x08, inner, outer }
    }
}


// ---------------------------------------------------------------------------
// Rendering the merged configuration
// ---------------------------------------------------------------------------

/// A configuration value tree, as the configuration loader merged it. Each
/// leaf carries its rendered value and the name of the provider that
/// supplied it.
#[derive(Debug)]
pub enum ValueTree {
    /// Keyed entries, in key order.
    Dict(Vec<(String, ValueTree)>),
    /// Items in order.
    Array(Vec<ValueTree>),
    /// A value with its source, e.g. `0x08` from `defaults`.
    Leaf { text: String, source: String },
}

/// `n` levels of indentation, four spaces each.
pub open spec fn pad(n: nat) -> Seq<char> {
    Seq::new(4 * n, |i: int| ' ')
}

/// The value under `key` in `entries`, if any (the first one).
pub open spec fn lookup_key(entries: Seq<(String, ValueTree)>, key: Seq<char>) -> Option<ValueTree>
    decreases entries.len(),
{
    if entries.len() == 0 {
        None
    } else if entries[0].0@ == key {
        Some(entries[0].1)
    } else {
        lookup_key(entries.drop_first(), key)
    }
}

/// The schema node under `key` of a schema node that is a dictionary.
pub open spec fn known_under_key(known: Option<ValueTree>, key: Seq<char>) -> Option<ValueTree> {
    match known {
        Some(ValueTree::Dict(kd)) => lookup_key(kd@, key),
        _ => None,
    }
}

/// The schema node at `index` of a schema node that is an array.
pub open spec fn known_at_index(known: Option<ValueTree>, index: int) -> Option<ValueTree> {
    match known {
        Some(ValueTree::Array(ka)) => if 0 <= index < ka@.len() {
            Some(ka@[index])
        } else {
            None
        },
        _ => None,
    }
}

/// Marker appended to a leaf the schema does not know.
pub open spec fn unknown_marker() -> Seq<char> {
    " \u{2190} unknown"@
}

/// How a tree renders at `indent` levels, against the schema node `known`:
/// empty containers as `{}` and `[]`; other containers one entry per line,
/// indented one level deeper and followed by a comma, the closing bracket at
/// the container's own level; a leaf as its value, its source in
/// parentheses, and a marker when the schema does not know it.
pub open spec fn rendered(v: ValueTree, known: Option<ValueTree>, indent: nat) -> Seq<char>
    decreases v,
{
    match v {
        ValueTree::Dict(d) => if d@.len() == 0 {
            "{}"@
        } else {
            "{\n"@ + rendered_entries(d@, known, indent) + pad(indent) + "}"@
        },
        ValueTree::Array(items) => if items@.len() == 0 {
            "[]"@
        } else {
            "[\n"@ + rendered_items(items@, known, indent) + pad(indent) + "]"@
        },
        ValueTree::Leaf { text, source } => text@ + " ("@ + source@ + ")"@ + if known is None {
            unknown_marker()
        } else {
            Seq::empty()
        },
    }
}

/// The lines of a dictionary's entries.
pub open spec fn rendered_entries(
    entries: Seq<(String, ValueTree)>,
    known: Option<ValueTree>,
    indent: nat,
) -> Seq<char>
    decreases entries,
{
    if entries.len() == 0 {
        Seq::empty()
    } else {
        let last = entries.last();
        rendered_entries(entries.drop_last(), known, indent) + pad(indent + 1) + last.0@ + ": "@
            + rendered(last.1, known_under_key(known, last.0@), indent + 1) + ",\n"@
    }
}

/// The lines of an array's items.
pub open spec fn rendered_items(items: Seq<ValueTree>, known: Option<ValueTree>, indent: nat) -> Seq<
    char,
>
    decreases items,
{
    if items.len() == 0 {
        Seq::empty()
    } else {
        rendered_items(items.drop_last(), known, indent) + pad(indent + 1) + rendered(
            items.last(),
            known_at_index(known, items.len() - 1),
            indent + 1,
        ) + ",\n"@
    }
}


/// Nesting depth of a tree: 0 for a leaf, one more than its deepest child
/// for a container.
pub open spec fn depth(v: ValueTree) -> nat
    decreases v,
{
    match v {
        ValueTree::Dict(d) => 1 + entries_depth(d@),
        ValueTree::Array(items) => 1 + items_depth(items@),
        ValueTree::Leaf { .. } => 0,
    }
}

/// Depth of the deepest value among dictionary entries.
pub open spec fn entries_depth(entries: Seq<(String, ValueTree)>) -> nat
    decreases entries,
{
    if entries.len() == 0 {
        0
    } else {
        let rest = entries_depth(entries.drop_last());
        let last = depth(entries.last().1);
        if rest >= last {
            rest
        } else {
            last
        }
    }
}

/// Depth of the deepest item of an array.
pub open spec fn items_depth(items: Seq<ValueTree>) -> nat
    decreases items,
{
    if items.len() == 0 {
        0
    } else {
        let rest = items_depth(items.drop_last());
        let last = depth(items.last());
        if rest >= last {
            rest
        } else {
            last
        }
    }
}

proof fn lemma_entries_depth(entries: Seq<(String, ValueTree)>, i: int)
    requires
        0 <= i < entries.len(),
    ensures
        depth(entries[i].1) <= entries_depth(entries),
    decreases entries.len(),
{
    if i < entries.len() - 1 {
        lemma_entries_depth(entries.drop_last(), i);
    }
}

proof fn lemma_items_depth(items: Seq<ValueTree>, i: int)
    requires
        0 <= i < items.len(),
    ensures
        depth(items[i]) <= items_depth(items),
    decreases items.len(),
{
    if i < items.len() - 1 {
        lemma_items_depth(items.drop_last(), i);
    }
}

/// The schema node a reference points to, if any.
pub open spec fn known_node(known: Option<&ValueTree>) -> Option<ValueTree> {
    match known {
        Some(k) => Some(*k),
        None => None,
    }
}

/// Appends `n` levels of indentation.
fn push_pad(out: &mut String, n: usize)
    ensures
        final(out)@ == old(out)@ + pad(n as nat),
{
    let level = "    ";
    proof {
        reveal_strlit("    ");
    }
    let mut i: usize = 0;
    while i < n
        invariant
            i <= n,
            level@ == seq![' ', ' ', ' ', ' '],
            out@ == old(out)@ + pad(i as nat),
        decreases n - i,
    {
        out.append(level);
        i = i + 1;
        assert(pad(i as nat) =~= pad((i - 1) as nat) + level@);
    }
}

/// The value under `key` in `entries`, if any.
fn find_key<'a>(entries: &'a Vec<(String, ValueTree)>, key: &String) -> (r: Option<&'a ValueTree>)
    ensures
        known_node(r) == lookup_key(entries@, key@),
{
    let mut j: usize = 0;
    assert(entries@.skip(0) =~= entries@);
    while j < entries.len()
        invariant
            j <= entries@.len(),
            lookup_key(entries@, key@) == lookup_key(entries@.skip(j as int), key@),
        decreases entries@.len() - j,
    {
        assert(entries@.skip(j as int).drop_first() =~= entries@.skip(j + 1));
        if entries[j].0 == *key {
            return Some(&entries[j].1);
        }
        j = j + 1;
    }
    None
}

/// The schema node under `key`, when the schema node is a dictionary.
fn known_for_key<'a>(known: Option<&'a ValueTree>, key: &String) -> (r: Option<&'a ValueTree>)
    ensures
        known_node(r) == known_under_key(known_node(known), key@),
{
    match known {
        Some(kv) => match kv {
            ValueTree::Dict(kd) => find_key(kd, key),
            _ => None,
        },
        None => None,
    }
}

/// The schema node at `index`, when the schema node is an array.
fn known_for_index<'a>(known: Option<&'a ValueTree>, index: usize) -> (r: Option<&'a ValueTree>)
    ensures
        known_node(r) == known_at_index(known_node(known), index as int),
{
    match known {
        Some(kv) => match kv {
            ValueTree::Array(ka) => if index < ka.len() {
                Some(&ka[index])
            } else {
                None
            },
            _ => None,
        },
        None => None,
    }
}

/// Appends the lines of a dictionary's entries at `indent` levels (the
/// entries themselves one level deeper).
fn render_entries(
    d: &Vec<(String, ValueTree)>,
    known: Option<&ValueTree>,
    indent: usize,
    out: &mut String,
)
    requires
        indent + 1 + entries_depth(d@) <= usize::MAX,
    ensures
        final(out)@ == old(out)@ + rendered_entries(d@, known_node(known), indent as nat),
    decreases d,
{
    let ghost k = known_node(known);
    let ghost start = out@;
    let mut i: usize = 0;
    while i < d.len()
        invariant
            i <= d@.len(),
            k == known_node(known),
            indent + 1 + entries_depth(d@) <= usize::MAX,
            out@ == start + rendered_entries(d@.take(i as int), k, indent as nat),
        decreases d@.len() - i,
    {
        let entry = &d[i];
        proof {
            lemma_entries_depth(d@, i as int);
            assert(decreases_to!(*d => d@[i as int].1));
        }
        let sub_known = known_for_key(known, &entry.0);
        let ghost before = out@;
        push_pad(out, indent + 1);
        out.append(entry.0.as_str());
        out.append(": ");
        render_value(&entry.1, sub_known, indent + 1, out);
        out.append(",\n");
        proof {
            let t = d@.take(i + 1);
            assert(t.drop_last() =~= d@.take(i as int));
            assert(t.last() == d@[i as int]);
            assert(out@ =~= before + pad(indent as nat + 1) + entry.0@ + ": "@ + rendered(
                entry.1,
                known_under_key(k, entry.0@),
                indent as nat + 1,
            ) + ",\n"@);
        }
        i = i + 1;
    }
    assert(d@.take(d@.len() as int) =~= d@);
}

/// Appends the lines of an array's items at `indent` levels (the items
/// themselves one level deeper).
fn render_items(items: &Vec<ValueTree>, known: Option<&ValueTree>, indent: usize, out: &mut String)
    requires
        indent + 1 + items_depth(items@) <= usize::MAX,
    ensures
        final(out)@ == old(out)@ + rendered_items(items@, known_node(known), indent as nat),
    decreases items,
{
    let ghost k = known_node(known);
    let ghost start = out@;
    let mut i: usize = 0;
    while i < items.len()
        invariant
            i <= items@.len(),
            k == known_node(known),
            indent + 1 + items_depth(items@) <= usize::MAX,
            out@ == start + rendered_items(items@.take(i as int), k, indent as nat),
        decreases items@.len() - i,
    {
        proof {
            lemma_items_depth(items@, i as int);
            assert(decreases_to!(*items => items@[i as int]));
        }
        let sub_known = known_for_index(known, i);
        let ghost before = out@;
        push_pad(out, indent + 1);
        render_value(&items[i], sub_known, indent + 1, out);
        out.append(",\n");
        proof {
            let t = items@.take(i + 1);
            assert(t.drop_last() =~= items@.take(i as int));
            assert(t.last() == items@[i as int]);
            assert(out@ =~= before + pad(indent as nat + 1) + rendered(
                items@[i as int],
                known_at_index(k, i as int),
                indent as nat + 1,
            ) + ",\n"@);
        }
        i = i + 1;
    }
    assert(items@.take(items@.len() as int) =~= items@);
}

/// Appends the rendering of `v` at `indent` levels, against the schema node
/// `known` (none once the schema does not know the subtree).
pub fn render_value(v: &ValueTree, known: Option<&ValueTree>, indent: usize, out: &mut String)
    requires
        indent + depth(*v) <= usize::MAX,
    ensures
        final(out)@ == old(out)@ + rendered(*v, known_node(known), indent as nat),
    decreases v,
{
    let ghost k = known_node(known);
    match v {
        ValueTree::Dict(d) => {
            if d.len() == 0 {
                out.append("{}");
                return;
            }
            let ghost start = out@;
            out.append("{\n");
            proof {
                assert(decreases_to!(*v => *d));
            }
            render_entries(d, known, indent, out);
            push_pad(out, indent);
            out.append("}");
            assert(out@ =~= start + rendered(*v, k, indent as nat));
        },
        ValueTree::Array(items) => {
            if items.len() == 0 {
                out.append("[]");
                return;
            }
            let ghost start = out@;
            out.append("[\n");
            proof {
                assert(decreases_to!(*v => *items));
            }
            render_items(items, known, indent, out);
            push_pad(out, indent);
            out.append("]");
            assert(out@ =~= start + rendered(*v, k, indent as nat));
        },
        ValueTree::Leaf { text, source } => {
            out.append(text.as_str());
            out.append(" (");
            out.append(source.as_str());
            out.append(")");
            if known.is_none() {
                out.append(" \u{2190} unknown");
            } else {
                assert(old(out)@ + rendered(*v, k, indent as nat) =~= out@);
            }
        },
    }
}

/// Renders the merged configuration tree against the tree of the keys the
/// typed configuration kept: one line per leaf with its source, leaves the
/// schema does not know marked as unknown.
pub fn render(merged: &ValueTree, known: &ValueTree) -> (r: String)
    requires
        depth(*merged) <= usize::MAX,
    ensures
        r@ == rendered(*merged, Some(*known), 0),
{
    let mut out = String::new();
    render_value(merged, Some(known), 0, &mut out);
    out
}

} // verus!
