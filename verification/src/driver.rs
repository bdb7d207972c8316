//! The driver's bookkeeping: the bulbs it drives, keyed by identifier, and
//! the decisions of its mode machine (idle, zeroing, cycling).

use std::time::Duration;
use tokio::time::Instant;
use vstd::prelude::*;

use crate::bulb::Bulb;
use crate::bulb::BulbView;
use crate::bulb::Command;
use crate::bulb::Error as BulbError;
use crate::bulb::Response;
use crate::bulb::after_response;
use crate::bulb::lemma_refresh_takes_in_telemetry;
use crate::config;
use crate::config::Topology;
use crate::config::secs_duration;
use crate::i2c::Read;
use crate::i2c::Write;
use crate::i2c::bytes_contents;
use crate::topology;
use crate::topology::BulbId;
use crate::topology::DISABLED_ADDRESS;
use crate::topology::INNER_COUNT;
use crate::topology::OUTER_COUNT;
use crate::topology::TOTAL_BULBS;
use crate::topology::is_canonical_slot;
use crate::topology::lemma_slot_ids_distinct;
use crate::topology::slot_id;
use crate::topology::slot_index;
use crate::topology::slot_ring;

verus! {

/// Maximum extension asked of every bulb before it zeroes, in inches.
pub const ZEROING_MAX_EXTENSION: u8 = 65;

/// A bulb at `address` of which nothing has been read or asked yet.
pub open spec fn fresh_bulb(address: u16) -> BulbView {
    BulbView {
        address,
        real_extension: 0,
        real_speed: 0,
        light_on: false,
        zeroing: false,
        disable_all: false,
        eeprom_error: false,
        last_requested_extension: 0,
    }
}

/// The bulbs the driver starts with, from the first `n` canonical slots of
/// `t`: one fresh bulb per enabled slot, in slot order, under the slot's
/// identifier.
pub open spec fn initial_entries(t: Topology, n: int) -> Seq<(Seq<char>, BulbView)>
    decreases n,
{
    if n <= 0 {
        Seq::empty()
    } else {
        let k = n - 1;
        let rest = initial_entries(t, k);
        if t.addresses()[k] == DISABLED_ADDRESS {
            rest
        } else {
            rest.push((slot_id(slot_ring(k), slot_index(k)), fresh_bulb(t.addresses()[k])))
        }
    }
}

/// No identifier occurs twice.
pub open spec fn ids_distinct(entries: Seq<(Seq<char>, BulbView)>) -> bool {
    forall|i: int, j: int| 0 <= i < j < entries.len() ==> entries[i].0 != entries[j].0
}

/// The extension, in 1/256 inch, that stands for a bulb's reported
/// extension in whole inches (saturating at the largest wire value).
pub open spec fn inches_to_wire(inches: u16) -> u16 {
    if inches >= 256 {
        0xFFFF
    } else {
        (inches * 256) as u16
    }
}

/// The driver skips disabled positions: every bulb it starts with is at an
/// enabled address, freshly set up, and every enabled slot has its bulb.
pub proof fn lemma_initial_entries_are_enabled_slots(t: Topology, n: int)
    requires
        0 <= n <= t.addresses().len(),
    ensures
        forall|i: int|
            0 <= i < initial_entries(t, n).len() ==> (#[trigger] initial_entries(t, n)[i]).1.address
                != DISABLED_ADDRESS && initial_entries(t, n)[i].1 == fresh_bulb(
                initial_entries(t, n)[i].1.address,
            ),
        forall|k: int|
            0 <= k < n && t.addresses()[k] != DISABLED_ADDRESS ==> exists|i: int|
                0 <= i < initial_entries(t, n).len() && #[trigger] initial_entries(t, n)[i] == (
                    slot_id(slot_ring(k), slot_index(k)),
                    fresh_bulb(#[trigger] t.addresses()[k]),
                ),
    decreases n,
{
    if n > 0 {
        lemma_initial_entries_are_enabled_slots(t, n - 1);
        let rest = initial_entries(t, n - 1);
        let all = initial_entries(t, n);
        assert forall|k: int|
            0 <= k < n && t.addresses()[k] != DISABLED_ADDRESS implies exists|i: int|
                0 <= i < all.len() && #[trigger] all[i] == (
                    slot_id(slot_ring(k), slot_index(k)),
                    fresh_bulb(#[trigger] t.addresses()[k]),
                ) by {
            if k < n - 1 {
                let i = choose|i: int|
                    0 <= i < rest.len() && #[trigger] rest[i] == (
                        slot_id(slot_ring(k), slot_index(k)),
                        fresh_bulb(#[trigger] t.addresses()[k]),
                    );
                assert(all[i] == rest[i]);
            } else {
                assert(all[rest.len() as int] == (
                    slot_id(slot_ring(k), slot_index(k)),
                    fresh_bulb(t.addresses()[k]),
                ));
            }
        }
    }
}

/// `w` sets the maximum extension of bulb `before` to `max` at the
/// extension it last reported, and `after` is that bulb once the write is
/// prepared.
pub open spec fn configured_write(
    w: Write,
    before: (Seq<char>, BulbView),
    after: (Seq<char>, BulbView),
    max: u8,
) -> bool {
    let command = Command::SetMaxExtension { extension: inches_to_wire(before.1.real_extension), max };
    &&& w.address == before.1.address
    &&& bytes_contents(w.data) == command.spec_encode()
    &&& after == (before.0, BulbView { last_requested_extension: command.spec_extension(), ..before.1 })
}

proof fn lemma_initial_entries_ids(t: Topology, n: int)
    requires
        0 <= n <= t.addresses().len(),
    ensures
        forall|i: int|
            0 <= i < initial_entries(t, n).len() ==> exists|k: int|
                0 <= k < n && #[trigger] initial_entries(t, n)[i].0 == slot_id(
                    slot_ring(k),
                    slot_index(k),
                ),
        initial_entries(t, n).len() <= n,
    decreases n,
{
    if n > 0 {
        lemma_initial_entries_ids(t, n - 1);
        let rest = initial_entries(t, n - 1);
        assert forall|i: int| 0 <= i < initial_entries(t, n).len() implies exists|k: int|
            0 <= k < n && #[trigger] initial_entries(t, n)[i].0 == slot_id(
                slot_ring(k),
                slot_index(k),
            ) by {
            if i < rest.len() {
                assert(initial_entries(t, n)[i] == rest[i]);
                let k = choose|k: int|
                    0 <= k < n - 1 && #[trigger] rest[i].0 == slot_id(slot_ring(k), slot_index(k));
                assert(0 <= k < n);
            } else {
                assert(initial_entries(t, n)[i].0 == slot_id(slot_ring(n - 1), slot_index(n - 1)));
            }
        }
    }
}

/// The bulbs the driver drives, each under its identifier.
pub struct State {
    entries: Vec<(BulbId, Bulb)>,
    zero_timeout: Duration,
    refresh_interval: Duration,
}

impl State {
    #[verifier::type_invariant]
    spec fn well_formed(self) -> bool {
        forall|i: int, j: int|
            0 <= i < j < self.entries@.len() ==> self.entries@[i].0@ != self.entries@[j].0@
    }

    /// Each bulb with its identifier, in order.
    pub closed spec fn entries(self) -> Seq<(Seq<char>, BulbView)> {
        Seq::new(self.entries@.len(), |i: int| (self.entries@[i].0@, self.entries@[i].1@))
    }

    pub closed spec fn spec_zero_timeout(self) -> Duration {
        self.zero_timeout
    }

    pub closed spec fn spec_refresh_interval(self) -> Duration {
        self.refresh_interval
    }

    /// Index of the bulb with identifier `id`, if any.
    pub open spec fn index_of(self, id: Seq<char>) -> Option<int> {
        if exists|i: int| 0 <= i < self.entries().len() && #[trigger] self.entries()[i].0 == id {
            Some(choose|i: int| 0 <= i < self.entries().len() && #[trigger] self.entries()[i].0 == id)
        } else {
            None
        }
    }

    /// The identifiers of the bulbs are distinct.
    fn prove_ids_distinct(&self)
        ensures
            ids_distinct(self.entries()),
    {
        proof {
            use_type_invariant(self);
            assert forall|i: int, j: int| 0 <= i < j < self.entries().len() implies self.entries()[i].0
                != self.entries()[j].0 by {
                assert(self.entries()[i].0 == self.entries@[i].0@);
                assert(self.entries()[j].0 == self.entries@[j].0@);
            }
        }
    }

    /// Sets up the bulbs of every enabled position of `topology`. The ring
    /// sizes must be right: a validated topology has them.
    pub fn initialize(config: &config::Driver, topology: &Topology) -> (r: State)
        requires
            topology.inner@.len() == INNER_COUNT as nat,
            topology.outer@.len() == OUTER_COUNT as nat,
        ensures
            r.entries() == initial_entries(*topology, TOTAL_BULBS as int),
            ids_distinct(r.entries()),
            r.spec_zero_timeout() == secs_duration(config.zero_timeout_secs),
            r.spec_refresh_interval() == secs_duration(config.refresh_interval_secs),
    {
        let ghost t = *topology;
        let slots = topology::bulbs(topology);
        let mut entries: Vec<(BulbId, Bulb)> = Vec::new();
        let mut k: usize = 0;
        while k < slots.len()
            invariant
                slots@.len() == TOTAL_BULBS as nat,
                forall|j: int| 0 <= j < slots@.len() ==> is_canonical_slot(t, j, #[trigger] slots@[j]),
                t.addresses().len() == TOTAL_BULBS as nat,
                k <= slots@.len(),
                Seq::new(entries@.len(), |i: int| (entries@[i].0@, entries@[i].1@)) == initial_entries(
                    t,
                    k as int,
                ),
                forall|i: int, j: int| 0 <= i < j < entries@.len() ==> entries@[i].0@ != entries@[j].0@,
            decreases slots@.len() - k,
        {
            let slot = &slots[k];
            proof {
                assert(is_canonical_slot(t, k as int, slots@[k as int]));
                lemma_initial_entries_ids(t, k as int);
            }
            if !slot.disabled {
                let ghost old_entries = entries@;
                proof {
                    assert forall|i: int| 0 <= i < old_entries.len() implies old_entries[i].0@ != slot.id@ by {
                        assert(initial_entries(t, k as int)[i].0 == old_entries[i].0@);
                        let k2 = choose|k2: int|
                            0 <= k2 < k && #[trigger] initial_entries(t, k as int)[i].0 == slot_id(
                                slot_ring(k2),
                                slot_index(k2),
                            );
                        lemma_slot_ids_distinct(k2, k as int);
                    }
                }
                entries.push((slot.id.clone(), Bulb::new(slot.address)));
            }
            proof {
                assert(Seq::new(entries@.len(), |i: int| (entries@[i].0@, entries@[i].1@)) =~= initial_entries(
                    t,
                    k + 1,
                ));
            }
            k = k + 1;
        }
        let r = State {
            entries,
            zero_timeout: config.zero_timeout(),
            refresh_interval: config.refresh_interval(),
        };
        r.prove_ids_distinct();
        r
    }

    /// Replaces the `i`-th bulb's state, keeping its identifier.
    fn set_bulb(&mut self, i: usize, bulb: Bulb)
        requires
            i < old(self).entries().len(),
        ensures
            final(self).entries() == old(self).entries().update(
                i as int,
                (old(self).entries()[i as int].0, bulb@),
            ),
            final(self).spec_zero_timeout() == old(self).spec_zero_timeout(),
            final(self).spec_refresh_interval() == old(self).spec_refresh_interval(),
    {
        proof {
            use_type_invariant(&*self);
        }
        let mut entries: Vec<(BulbId, Bulb)> = Vec::new();
        std::mem::swap(&mut entries, &mut self.entries);
        let id = entries[i].0.clone();
        entries.set(i, (id, bulb));
        assert forall|a: int, b: int| 0 <= a < b < entries@.len() implies entries@[a].0@ != entries@[b].0@ by {
            assert(entries@[a].0@ == old(self).entries@[a].0@);
            assert(entries@[b].0@ == old(self).entries@[b].0@);
        }
        std::mem::swap(&mut entries, &mut self.entries);
        assert(self.entries() =~= old(self).entries().update(
            i as int,
            (old(self).entries()[i as int].0, bulb@),
        ));
    }

    /// Number of bulbs.
    pub fn len(&self) -> (r: usize)
        ensures
            r == self.entries().len(),
    {
        self.entries.len()
    }

    /// Identifier of the `i`-th bulb.
    pub fn id(&self, i: usize) -> (r: &BulbId)
        requires
            i < self.entries().len(),
        ensures
            r@ == self.entries()[i as int].0,
    {
        &self.entries[i].0
    }

    /// The `i`-th bulb.
    pub fn bulb(&self, i: usize) -> (r: &Bulb)
        requires
            i < self.entries().len(),
        ensures
            r@ == self.entries()[i as int].1,
    {
        &self.entries[i].1
    }

    /// Index of the bulb with identifier `id`, if any.
    pub fn find(&self, id: &String) -> (r: Option<usize>)
        ensures
            match r {
                Some(i) => i < self.entries().len() && self.entries()[i as int].0 == id@,
                None => forall|i: int|
                    0 <= i < self.entries().len() ==> #[trigger] self.entries()[i].0 != id@,
            },
            r is Some <==> self.index_of(id@) is Some,
            r matches Some(i) ==> self.index_of(id@) == Some(i as int),
    {
        proof {
            use_type_invariant(self);
        }
        let mut i: usize = 0;
        while i < self.entries.len()
            invariant
                i <= self.entries@.len(),
                forall|a: int, b: int|
                    0 <= a < b < self.entries@.len() ==> self.entries@[a].0@ != self.entries@[b].0@,
                forall|j: int| 0 <= j < i ==> #[trigger] self.entries@[j].0@ != id@,
            decreases self.entries@.len() - i,
        {
            if self.entries[i].0 == *id {
                proof {
                    assert(self.entries()[i as int].0 == id@);
                    let c = choose|j: int|
                        0 <= j < self.entries().len() && #[trigger] self.entries()[j].0 == id@;
                    if c != i {
                        assert(self.entries()[c].0 == self.entries@[c].0@);
                    }
                }
                return Some(i);
            }
            i = i + 1;
        }
        proof {
            assert forall|j: int| 0 <= j < self.entries().len() implies #[trigger] self.entries()[j].0
                != id@ by {
                assert(self.entries()[j].0 == self.entries@[j].0@);
            }
        }
        None
    }

    /// Prepares `command` for the `i`-th bulb.
    pub fn write_at(&mut self, i: usize, command: Command) -> (r: Write)
        requires
            i < old(self).entries().len(),
        ensures
            final(self).entries() == old(self).entries().update(
                i as int,
                (
                    old(self).entries()[i as int].0,
                    BulbView {
                        last_requested_extension: command.spec_extension(),
                        ..old(self).entries()[i as int].1
                    },
                ),
            ),
            final(self).spec_zero_timeout() == old(self).spec_zero_timeout(),
            final(self).spec_refresh_interval() == old(self).spec_refresh_interval(),
            r.address == old(self).entries()[i as int].1.address,
            bytes_contents(r.data) == command.spec_encode(),
    {
        let mut bulb = self.entries[i].1;
        let w = bulb.write(command);
        self.set_bulb(i, bulb);
        proof {
            assert(self.entries() =~= old(self).entries().update(
                i as int,
                (
                    old(self).entries()[i as int].0,
                    BulbView {
                        last_requested_extension: command.spec_extension(),
                        ..old(self).entries()[i as int].1
                    },
                ),
            ));
        }
        w
    }

    /// Prepares `command` for the bulb with identifier `id`; a bulb the
    /// driver does not drive (a disabled one, say) is skipped.
    pub fn write_to(&mut self, id: &String, command: Command) -> (r: Option<Write>)
        ensures
            match old(self).index_of(id@) {
                Some(i) => {
                    &&& final(self).entries() == old(self).entries().update(
                        i,
                        (
                            id@,
                            BulbView {
                                last_requested_extension: command.spec_extension(),
                                ..old(self).entries()[i].1
                            },
                        ),
                    )
                    &&& r matches Some(w) && w.address == old(self).entries()[i].1.address
                        && bytes_contents(w.data) == command.spec_encode()
                },
                None => final(self).entries() == old(self).entries() && r is None,
            },
            final(self).spec_zero_timeout() == old(self).spec_zero_timeout(),
            final(self).spec_refresh_interval() == old(self).spec_refresh_interval(),
    {
        match self.find(id) {
            Some(i) => Some(self.write_at(i, command)),
            None => None,
        }
    }

    /// The read request for the `i`-th bulb's telemetry.
    pub fn read_at(&self, i: usize) -> (r: Read)
        requires
            i < self.entries().len(),
        ensures
            r.address == self.entries()[i as int].1.address,
            r.amount == Response::LENGTH,
    {
        self.entries[i].1.read()
    }

    /// Takes in the outcome of a telemetry read of the `i`-th bulb.
    pub fn refresh_at(&mut self, i: usize, read: Result<Response, BulbError>)
        requires
            i < old(self).entries().len(),
        ensures
            match read {
                Ok(response) => final(self).entries() == old(self).entries().update(
                    i as int,
                    (
                        old(self).entries()[i as int].0,
                        after_response(old(self).entries()[i as int].1, response),
                    ),
                ),
                Err(_) => final(self).entries() == old(self).entries(),
            },
            final(self).spec_zero_timeout() == old(self).spec_zero_timeout(),
            final(self).spec_refresh_interval() == old(self).spec_refresh_interval(),
    {
        let mut bulb = self.entries[i].1;
        let _ = bulb.refresh(read);
        self.set_bulb(i, bulb);
        proof {
            match read {
                Ok(response) => {
                    assert(self.entries() =~= old(self).entries().update(
                        i as int,
                        (
                            old(self).entries()[i as int].0,
                            after_response(old(self).entries()[i as int].1, response),
                        ),
                    ));
                },
                Err(_) => {
                    assert(self.entries() =~= old(self).entries());
                },
            }
        }
    }

    /// The two writes that start zeroing the `i`-th bulb: first its maximum
    /// extension is set to [`ZEROING_MAX_EXTENSION`] at extension 0, then it
    /// is told to zero.
    pub fn prepare_zero(&mut self, i: usize) -> (r: (Write, Write))
        requires
            i < old(self).entries().len(),
        ensures
            final(self).entries() == old(self).entries().update(
                i as int,
                (
                    old(self).entries()[i as int].0,
                    BulbView { last_requested_extension: 0, ..old(self).entries()[i as int].1 },
                ),
            ),
            final(self).spec_zero_timeout() == old(self).spec_zero_timeout(),
            final(self).spec_refresh_interval() == old(self).spec_refresh_interval(),
            r.0.address == old(self).entries()[i as int].1.address,
            bytes_contents(r.0.data) == (Command::SetMaxExtension {
                extension: 0,
                max: ZEROING_MAX_EXTENSION,
            }).spec_encode(),
            r.1.address == old(self).entries()[i as int].1.address,
            bytes_contents(r.1.data) == (Command::Zero { extension: 0 }).spec_encode(),
    {
        let first = self.write_at(i, Command::SetMaxExtension { extension: 0, max: ZEROING_MAX_EXTENSION });
        let second = self.write_at(i, Command::Zero { extension: 0 });
        proof {
            assert(self.entries() =~= old(self).entries().update(
                i as int,
                (
                    old(self).entries()[i as int].0,
                    BulbView { last_requested_extension: 0, ..old(self).entries()[i as int].1 },
                ),
            ));
        }
        (first, second)
    }

    /// Some bulb still reports that it is zeroing.
    pub fn any_zeroing(&self) -> (r: bool)
        ensures
            r == exists|i: int| 0 <= i < self.entries().len() && #[trigger] self.entries()[i].1.zeroing,
    {
        let mut i: usize = 0;
        while i < self.entries.len()
            invariant
                i <= self.entries@.len(),
                forall|j: int| 0 <= j < i ==> !(#[trigger] self.entries@[j].1@).zeroing,
            decreases self.entries@.len() - i,
        {
            if self.entries[i].1.zeroing() {
                assert(self.entries()[i as int].1.zeroing);
                return true;
            }
            i = i + 1;
        }
        proof {
            assert forall|j: int| 0 <= j < self.entries().len() implies !(
            #[trigger] self.entries()[j]).1.zeroing by {
                assert(self.entries()[j].1 == self.entries@[j].1@);
            }
        }
        false
    }

    /// Sets every bulb's maximum extension to `max` inches, each at the
    /// extension it last reported: one write per bulb, in order.
    pub fn configure_max_extension(&mut self, max: u8) -> (r: Vec<Write>)
        ensures
            r@.len() == old(self).entries().len(),
            final(self).entries().len() == old(self).entries().len(),
            forall|i: int|
                0 <= i < r@.len() ==> configured_write(
                    #[trigger] r@[i],
                    old(self).entries()[i],
                    final(self).entries()[i],
                    max,
                ),
            final(self).spec_zero_timeout() == old(self).spec_zero_timeout(),
            final(self).spec_refresh_interval() == old(self).spec_refresh_interval(),
    {
        let n = self.len();
        let mut writes: Vec<Write> = Vec::new();
        let mut i: usize = 0;
        while i < n
            invariant
                n == old(self).entries().len(),
                i <= n,
                self.entries().len() == n,
                writes@.len() == i,
                self.spec_zero_timeout() == old(self).spec_zero_timeout(),
                self.spec_refresh_interval() == old(self).spec_refresh_interval(),
                forall|j: int| i <= j < n ==> #[trigger] self.entries()[j] == old(self).entries()[j],
                forall|j: int|
                    0 <= j < i ==> configured_write(
                        #[trigger] writes@[j],
                        old(self).entries()[j],
                        self.entries()[j],
                        max,
                    ),
            decreases n - i,
        {
            let inches = self.bulb(i).real_extension();
            let extension: u16 = if inches >= 256 {
                0xFFFF
            } else {
                inches * 256
            };
            let ghost before = self.entries();
            let ghost before_writes = writes@;
            assert(before[i as int] == old(self).entries()[i as int]);
            let w = self.write_at(i, Command::SetMaxExtension { extension, max });
            writes.push(w);
            proof {
                assert forall|j: int| 0 <= j <= i implies configured_write(
                    #[trigger] writes@[j],
                    old(self).entries()[j],
                    self.entries()[j],
                    max,
                ) by {
                    if j < i {
                        assert(writes@[j] == before_writes[j]);
                        assert(self.entries()[j] == before[j]);
                    } else {
                        assert(writes@[j] == w);
                    }
                }
                assert forall|j: int| i + 1 <= j < n implies #[trigger] self.entries()[j] == old(
                    self,
                ).entries()[j] by {
                    assert(self.entries()[j] == before[j]);
                }
            }
            i = i + 1;
        }
        writes
    }

    pub fn zero_timeout(&self) -> (r: Duration)
        ensures
            r == self.spec_zero_timeout(),
    {
        self.zero_timeout
    }

    pub fn refresh_interval(&self) -> (r: Duration)
        ensures
            r == self.spec_refresh_interval(),
    {
        self.refresh_interval
    }
}


// ---------------------------------------------------------------------------
// Refreshing while cycling
// ---------------------------------------------------------------------------

/// When the cycling task refreshes the bulbs: once the refresh interval has
/// passed since the last refresh. Only a refresh records its instant, so a
/// schedule that has never refreshed never comes due.
pub struct RefreshSchedule {
    last_check: Option<Instant>,
}

impl RefreshSchedule {
    /// The instant of the last refresh, if there was one.
    pub closed spec fn spec_last_check(self) -> Option<Instant> {
        self.last_check
    }

    /// A schedule with no refresh behind it.
    pub fn new() -> (r: RefreshSchedule)
        ensures
            r.spec_last_check() is None,
    {
        RefreshSchedule { last_check: None }
    }

    /// The instant of the last refresh, to which the caller compares the
    /// current instant.
    pub fn last_check(&self) -> (r: Option<Instant>)
        ensures
            r == self.spec_last_check(),
    {
        self.last_check
    }

    /// Decides at `now` whether to refresh, given whether the refresh
    /// interval has passed since the last refresh; a refresh records `now`.
    pub fn step(&mut self, now: Instant, interval_passed: bool) -> (r: bool)
        ensures
            (final(self).spec_last_check(), r) == schedule_step(
                old(self).spec_last_check(),
                now,
                interval_passed,
            ),
    {
        if self.last_check.is_some() && interval_passed {
            self.last_check = Some(now);
            true
        } else {
            false
        }
    }
}

/// One decision of a refresh schedule whose last refresh was at `last`:
/// the new last refresh, and whether to refresh now.
pub open spec fn schedule_step(last: Option<Instant>, now: Instant, interval_passed: bool) -> (
    Option<Instant>,
    bool,
) {
    if last is Some && interval_passed {
        (Some(now), true)
    } else {
        (last, false)
    }
}

/// The last refresh after the decisions `events` (each an instant and
/// whether the interval had passed), from a last refresh at `last`.
pub open spec fn schedule_after(last: Option<Instant>, events: Seq<(Instant, bool)>) -> Option<
    Instant,
>
    decreases events.len(),
{
    if events.len() == 0 {
        last
    } else {
        let prev = schedule_after(last, events.drop_last());
        schedule_step(prev, events.last().0, events.last().1).0
    }
}

/// A schedule that has never refreshed never comes due: after any
/// decisions, whatever their instants and however long the waits, the next
/// one does not refresh either.
pub proof fn lemma_fresh_schedule_never_due(events: Seq<(Instant, bool)>, now: Instant, interval_passed: bool)
    ensures
        schedule_after(None, events) is None,
        !schedule_step(schedule_after(None, events), now, interval_passed).1,
    decreases events.len(),
{
    if events.len() > 0 {
        lemma_fresh_schedule_never_due(events.drop_last(), events.last().0, events.last().1);
    }
}

// ---------------------------------------------------------------------------
// The driver's mode machine
// ---------------------------------------------------------------------------

/// What the driver is doing. While zeroing or cycling, the bulbs' state is
/// held by the background task that the caller runs.
pub enum Mode {
    Uninitialized,
    Idle { state: State },
    Zeroing,
    Cycling,
}

/// A background operation the driver can start.
#[derive(Clone, Copy, Debug, PartialEq, Eq, Structural)]
pub enum Task {
    Zeroing,
    Cycling,
}

/// What the caller must do to get the driver idle.
pub enum Idle {
    /// The bulbs' state the driver held while idle.
    Ready(State),
    /// The bulbs' state, freshly set up: the driver had none yet.
    Initialized(State),
    /// Wait for the zeroing task to hand the state back.
    AwaitZeroing,
    /// Cancel the cycling task, then wait for it to hand the state back.
    CancelCycle,
}

/// How a status request is answered.
#[derive(Clone, Copy, Debug, PartialEq, Eq, Structural)]
pub enum ReadAllPlan {
    /// Take the state, refresh every bulb and record their statuses.
    Refresh,
    /// Mark every recorded status as zeroing.
    MarkZeroing,
    /// Answer with the recorded statuses as they are.
    Keep,
}

/// The status of one bulb as last recorded. `extension` is in whole inches,
/// `speed` in 1/32 of the speed unit.
#[derive(Clone, Copy, Debug, PartialEq, Eq, Structural)]
pub struct BulbStatus {
    pub extension: u16,
    pub speed: u8,
    pub light_on: bool,
    pub zeroing: bool,
    pub disabled: bool,
    pub eeprom_error: bool,
}

/// The status a bulb reports.
pub open spec fn status_of(b: BulbView) -> BulbStatus {
    BulbStatus {
        extension: b.real_extension,
        speed: b.real_speed,
        light_on: b.light_on,
        zeroing: b.zeroing,
        disabled: b.disable_all,
        eeprom_error: b.eeprom_error,
    }
}

/// The status recorded for a bulb carries the bulb's own telemetry; so the
/// status of a bulb refreshed with a response reports that response.
pub proof fn lemma_status_reports_the_bulb(b: BulbView, response: Response)
    ensures
        status_of(b).extension == b.real_extension,
        status_of(b).speed == b.real_speed,
        status_of(b).light_on == b.light_on,
        status_of(b).zeroing == b.zeroing,
        status_of(b).disabled == b.disable_all,
        status_of(b).eeprom_error == b.eeprom_error,
        status_of(after_response(b, response)) == (BulbStatus {
            extension: response.extension,
            speed: response.speed,
            light_on: response.light,
            zeroing: response.zeroing,
            disabled: response.disable_all,
            eeprom_error: response.eeprom_error,
        }),
{
    lemma_refresh_takes_in_telemetry(b, response);
}

/// The driver's bookkeeping: its mode, its settings and the statuses it
/// recorded last.
pub struct Driver {
    mode: Mode,
    config: config::Driver,
    topology: Topology,
    last_status: Vec<(BulbId, BulbStatus)>,
}

impl Driver {
    pub closed spec fn spec_mode(self) -> Mode {
        self.mode
    }

    pub closed spec fn spec_config(self) -> config::Driver {
        self.config
    }

    pub closed spec fn spec_topology(self) -> Topology {
        self.topology
    }

    /// The recorded statuses, each under its bulb's identifier.
    pub closed spec fn statuses(self) -> Seq<(Seq<char>, BulbStatus)> {
        Seq::new(self.last_status@.len(), |i: int| (self.last_status@[i].0@, self.last_status@[i].1))
    }

    /// A driver that has not set up its bulbs yet.
    pub fn new(config: &config::Driver, topology: &Topology) -> (r: Driver)
        ensures
            r.spec_mode() is Uninitialized,
            r.spec_config() == *config,
            r.spec_topology().center == topology.center,
            r.spec_topology().inner@ == topology.inner@,
            r.spec_topology().outer@ == topology.outer@,
            r.statuses() == Seq::<(Seq<char>, BulbStatus)>::empty(),
    {
        let r = Driver {
            mode: Mode::Uninitialized,
            config: config::Driver {
                zero_timeout_secs: config.zero_timeout_secs,
                refresh_interval_secs: config.refresh_interval_secs,
            },
            topology: Topology {
                center: topology.center,
                inner: topology.inner.clone(),
                outer: topology.outer.clone(),
            },
            last_status: Vec::new(),
        };
        assert(r.statuses() =~= Seq::<(Seq<char>, BulbStatus)>::empty());
        r
    }

    /// Whether the bulbs have not been set up yet.
    pub fn is_uninitialized(&self) -> (r: bool)
        ensures
            r == (self.spec_mode() is Uninitialized),
    {
        match self.mode {
            Mode::Uninitialized => true,
            _ => false,
        }
    }

    /// Takes the driver out of its mode, leaving it uninitialized, and says
    /// how to get the bulbs' state: at hand when idle, freshly set up when
    /// uninitialized, from the zeroing task, or from the cycling task once it
    /// is cancelled. Setting up needs the topology's ring sizes to be right:
    /// a validated topology has them.
    pub fn idle(&mut self) -> (r: Idle)
        requires
            old(self).spec_mode() is Uninitialized ==> {
                &&& old(self).spec_topology().inner@.len() == INNER_COUNT as nat
                &&& old(self).spec_topology().outer@.len() == OUTER_COUNT as nat
            },
        ensures
            final(self).spec_mode() is Uninitialized,
            final(self).spec_config() == old(self).spec_config(),
            final(self).spec_topology() == old(self).spec_topology(),
            final(self).statuses() == old(self).statuses(),
            match old(self).spec_mode() {
                Mode::Idle { state } => r == Idle::Ready(state),
                Mode::Uninitialized => r matches Idle::Initialized(state) && state.entries()
                    == initial_entries(old(self).spec_topology(), TOTAL_BULBS as int)
                    && state.spec_zero_timeout() == secs_duration(
                    old(self).spec_config().zero_timeout_secs,
                ) && state.spec_refresh_interval() == secs_duration(
                    old(self).spec_config().refresh_interval_secs,
                ),
                Mode::Zeroing => r is AwaitZeroing,
                Mode::Cycling => r is CancelCycle,
            },
    {
        let mut mode = Mode::Uninitialized;
        std::mem::swap(&mut mode, &mut self.mode);
        match mode {
            Mode::Idle { state } => Idle::Ready(state),
            Mode::Uninitialized => Idle::Initialized(State::initialize(&self.config, &self.topology)),
            Mode::Zeroing => Idle::AwaitZeroing,
            Mode::Cycling => Idle::CancelCycle,
        }
    }

    /// Puts the driver back to idle with the bulbs' state.
    pub fn settle(&mut self, state: State)
        ensures
            final(self).spec_mode() == (Mode::Idle { state }),
            final(self).spec_config() == old(self).spec_config(),
            final(self).spec_topology() == old(self).spec_topology(),
            final(self).statuses() == old(self).statuses(),
    {
        self.mode = Mode::Idle { state };
    }

    /// Records that a background task now holds the bulbs' state.
    pub fn start(&mut self, task: Task)
        ensures
            task is Zeroing ==> final(self).spec_mode() is Zeroing,
            task is Cycling ==> final(self).spec_mode() is Cycling,
            final(self).spec_config() == old(self).spec_config(),
            final(self).spec_topology() == old(self).spec_topology(),
            final(self).statuses() == old(self).statuses(),
    {
        self.mode = match task {
            Task::Zeroing => Mode::Zeroing,
            Task::Cycling => Mode::Cycling,
        };
    }

    /// A caller waiting for the driver to be idle is answered at once when
    /// no background task runs; otherwise it waits for the task to end.
    pub fn answers_waiters_now(&self) -> (r: bool)
        ensures
            r == (self.spec_mode() is Uninitialized || self.spec_mode() is Idle),
    {
        match self.mode {
            Mode::Uninitialized => true,
            Mode::Idle { .. } => true,
            _ => false,
        }
    }

    /// How a status request is answered in the current mode.
    pub fn read_all_plan(&self) -> (r: ReadAllPlan)
        ensures
            r == (if self.spec_mode() is Uninitialized || self.spec_mode() is Idle {
                ReadAllPlan::Refresh
            } else if self.spec_mode() is Zeroing {
                ReadAllPlan::MarkZeroing
            } else {
                ReadAllPlan::Keep
            }),
    {
        match self.mode {
            Mode::Uninitialized => ReadAllPlan::Refresh,
            Mode::Idle { .. } => ReadAllPlan::Refresh,
            Mode::Zeroing => ReadAllPlan::MarkZeroing,
            Mode::Cycling => ReadAllPlan::Keep,
        }
    }

    /// Records the status of every bulb of `state`.
    pub fn record_statuses(&mut self, state: &State)
        ensures
            final(self).statuses() == Seq::new(
                state.entries().len(),
                |i: int| (state.entries()[i].0, status_of(state.entries()[i].1)),
            ),
            final(self).spec_mode() == old(self).spec_mode(),
            final(self).spec_config() == old(self).spec_config(),
            final(self).spec_topology() == old(self).spec_topology(),
    {
        let n = state.len();
        let mut recorded: Vec<(BulbId, BulbStatus)> = Vec::new();
        let mut i: usize = 0;
        while i < n
            invariant
                n == state.entries().len(),
                i <= n,
                recorded@.len() == i,
                forall|j: int|
                    0 <= j < i ==> (#[trigger] recorded@[j]).0@ == state.entries()[j].0
                        && recorded@[j].1 == status_of(state.entries()[j].1),
            decreases n - i,
        {
            let bulb = state.bulb(i);
            let status = BulbStatus {
                extension: bulb.real_extension(),
                speed: bulb.real_speed(),
                light_on: bulb.light_on(),
                zeroing: bulb.zeroing(),
                disabled: bulb.disable_all(),
                eeprom_error: bulb.eeprom_error(),
            };
            recorded.push((state.id(i).clone(), status));
            i = i + 1;
        }
        self.last_status = recorded;
        assert(self.statuses() =~= Seq::new(
            state.entries().len(),
            |i: int| (state.entries()[i].0, status_of(state.entries()[i].1)),
        ));
    }

    /// Marks every recorded status as zeroing, as it is while the zeroing
    /// task runs.
    pub fn mark_zeroing(&mut self)
        ensures
            final(self).statuses() == Seq::new(
                old(self).statuses().len(),
                |i: int|
                    (
                        old(self).statuses()[i].0,
                        BulbStatus { zeroing: true, ..old(self).statuses()[i].1 },
                    ),
            ),
            final(self).spec_mode() == old(self).spec_mode(),
            final(self).spec_config() == old(self).spec_config(),
            final(self).spec_topology() == old(self).spec_topology(),
    {
        let mut recorded: Vec<(BulbId, BulbStatus)> = Vec::new();
        std::mem::swap(&mut recorded, &mut self.last_status);
        let ghost before = recorded@;
        let mut i: usize = 0;
        while i < recorded.len()
            invariant
                recorded@.len() == before.len(),
                i <= before.len(),
                forall|j: int| i <= j < before.len() ==> #[trigger] recorded@[j] == before[j],
                forall|j: int|
                    0 <= j < i ==> (#[trigger] recorded@[j]).0@ == before[j].0@ && recorded@[j].1 == (
                    BulbStatus { zeroing: true, ..before[j].1 }),
            decreases before.len() - i,
        {
            let id = recorded[i].0.clone();
            let status = BulbStatus { zeroing: true, ..recorded[i].1 };
            recorded.set(i, (id, status));
            i = i + 1;
        }
        std::mem::swap(&mut recorded, &mut self.last_status);
        assert(self.statuses() =~= Seq::new(
            old(self).statuses().len(),
            |i: int|
                (old(self).statuses()[i].0, BulbStatus { zeroing: true, ..old(self).statuses()[i].1 }),
        ));
    }

    /// The recorded statuses.
    pub fn last_status(&self) -> (r: &Vec<(BulbId, BulbStatus)>)
        ensures
            Seq::new(r@.len(), |i: int| (r@[i].0@, r@[i].1)) == self.statuses(),
    {
        &self.last_status
    }
}

} // verus!
