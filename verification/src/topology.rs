//! The chandelier's canonical bulb layout: one center bulb, an inner ring of
//! six and an outer ring of twelve.

use vstd::prelude::*;

use crate::config::is_legal_address;
use crate::config::lemma_verdict_ok_iff_valid;
use crate::config::topology_verdict;
use crate::config::Topology;

verus! {

/// Sentinel address of a position with no hardware wired up. It lies outside
/// the legal 7-bit i2c slave range, so it never collides with a device.
pub const DISABLED_ADDRESS: u16 = 0xFF;

/// Lowest legal 7-bit i2c slave address.
pub const MIN_VALID_ADDRESS: u16 = 0x08;

/// Highest legal 7-bit i2c slave address.
pub const MAX_VALID_ADDRESS: u16 = 0x77;

/// Bulbs on the inner ring.
pub const INNER_COUNT: u16 = 6;

/// Bulbs on the outer ring.
pub const OUTER_COUNT: u16 = 12;

/// All bulbs: the center, the inner ring and the outer ring.
pub const TOTAL_BULBS: u16 = 19;


/// Identifier of a bulb, shared with the web frontend.
pub type BulbId = String;

/// One bulb position: its identifier, ring (0 for the center, 1 inner,
/// 2 outer), index on the ring, i2c address, and whether it is disabled.
#[derive(Debug, Clone)]
pub struct BulbSlot {
    pub id: BulbId,
    pub ring: u8,
    pub index: u16,
    pub address: u16,
    pub disabled: bool,
}

/// The character of a decimal digit.
pub open spec fn digit(d: nat) -> char {
    if d == 0 {
        '0'
    } else if d == 1 {
        '1'
    } else if d == 2 {
        '2'
    } else if d == 3 {
        '3'
    } else if d == 4 {
        '4'
    } else if d == 5 {
        '5'
    } else if d == 6 {
        '6'
    } else if d == 7 {
        '7'
    } else if d == 8 {
        '8'
    } else {
        '9'
    }
}

/// The decimal digits of `n`.
pub open spec fn decimal(n: nat) -> Seq<char>
    decreases n,
{
    if n < 10 {
        seq![digit(n)]
    } else {
        decimal(n / 10).push(digit(n % 10))
    }
}

/// The character written for a digit `d` is the one whose code is that of
/// `'0'` plus `d`, so `decimal(n)` is the ordinary base-10 numeral of `n`:
/// its last character is that of `n % 10`, and what stands before it is the
/// numeral of `n / 10` (nothing when `n < 10`).
pub proof fn lemma_decimal_is_base_ten(n: nat)
    ensures
        decimal(n).len() > 0,
        decimal(n).last() as int == '0' as int + n % 10,
        n < 10 ==> decimal(n).len() == 1,
        n >= 10 ==> decimal(n).drop_last() == decimal(n / 10),
        forall|d: nat| d < 10 ==> #[trigger] digit(d) as int == '0' as int + d,
{
    assert forall|d: nat| d < 10 implies #[trigger] digit(d) as int == '0' as int + d by {
        if d == 0 {
        } else if d == 1 {
        } else if d == 2 {
        } else if d == 3 {
        } else if d == 4 {
        } else if d == 5 {
        } else if d == 6 {
        } else if d == 7 {
        } else if d == 8 {
        } else {
        }
    }
    assert(digit(n % 10) as int == '0' as int + n % 10);
    if n >= 10 {
        assert(decimal(n).drop_last() =~= decimal(n / 10));
    }
}

/// The identifier of the bulb at `index` on `ring`: `c` for the center,
/// `r1-<index>` on the inner ring, `r2-<index>` on the outer ring.
pub open spec fn slot_id(ring: u8, index: u16) -> Seq<char> {
    if ring == 0 {
        "c"@
    } else if ring == 1 {
        "r1-"@ + decimal(index as nat)
    } else {
        "r2-"@ + decimal(index as nat)
    }
}

/// Ring of the `k`-th slot in canonical order.
pub open spec fn slot_ring(k: int) -> u8 {
    if k == 0 {
        0
    } else if k <= INNER_COUNT {
        1
    } else {
        2
    }
}

/// Index on its ring of the `k`-th slot in canonical order.
pub open spec fn slot_index(k: int) -> u16 {
    if k == 0 {
        0
    } else if k <= INNER_COUNT {
        (k - 1) as u16
    } else {
        (k - 1 - INNER_COUNT) as u16
    }
}

/// The `k`-th slot is the canonical one for `t`.
pub open spec fn is_canonical_slot(t: Topology, k: int, slot: BulbSlot) -> bool {
    &&& slot.ring == slot_ring(k)
    &&& slot.index == slot_index(k)
    &&& slot.id@ == slot_id(slot_ring(k), slot_index(k))
    &&& slot.address == t.addresses()[k]
    &&& slot.disabled == (slot.address == DISABLED_ADDRESS)
}

/// The one-character string of a decimal digit.
fn digit_str(d: u16) -> (r: &'static str)
    requires
        d < 10,
    ensures
        r@ == seq![digit(d as nat)],
{
    match d {
        0 => {
            proof {
                reveal_strlit("0");
            }
            "0"
        },
        1 => {
            proof {
                reveal_strlit("1");
            }
            "1"
        },
        2 => {
            proof {
                reveal_strlit("2");
            }
            "2"
        },
        3 => {
            proof {
                reveal_strlit("3");
            }
            "3"
        },
        4 => {
            proof {
                reveal_strlit("4");
            }
            "4"
        },
        5 => {
            proof {
                reveal_strlit("5");
            }
            "5"
        },
        6 => {
            proof {
                reveal_strlit("6");
            }
            "6"
        },
        7 => {
            proof {
                reveal_strlit("7");
            }
            "7"
        },
        8 => {
            proof {
                reveal_strlit("8");
            }
            "8"
        },
        _ => {
            proof {
                reveal_strlit("9");
            }
            "9"
        },
    }
}

/// The decimal form of `n`.
fn decimal_string(n: u16) -> (r: String)
    ensures
        r@ == decimal(n as nat),
    decreases n,
{
    if n < 10 {
        String::from_str(digit_str(n))
    } else {
        let mut s = decimal_string(n / 10);
        s.append(digit_str(n % 10));
        assert(s@ =~= decimal(n as nat));
        s
    }
}

/// The identifier of the bulb at `index` on `ring` (1 or 2).
fn ring_slot_id(ring: u8, index: u16) -> (r: String)
    requires
        ring == 1 || ring == 2,
    ensures
        r@ == slot_id(ring, index),
{
    let mut id = if ring == 1 {
        proof {
            reveal_strlit("r1-");
        }
        String::from_str("r1-")
    } else {
        proof {
            reveal_strlit("r2-");
        }
        String::from_str("r2-")
    };
    let digits = decimal_string(index);
    id.append(digits.as_str());
    id
}

/// Builds the canonical slots in order: the center, the inner ring, the
/// outer ring. Addresses come from `topology`; a slot whose address is
/// [`DISABLED_ADDRESS`] is disabled. The ring sizes must be right: a
/// validated topology has them.
pub fn bulbs(topology: &Topology) -> (r: Vec<BulbSlot>)
    requires
        topology.inner@.len() == INNER_COUNT as nat,
        topology.outer@.len() == OUTER_COUNT as nat,
    ensures
        r@.len() == TOTAL_BULBS as nat,
        forall|k: int| 0 <= k < r@.len() ==> is_canonical_slot(*topology, k, #[trigger] r@[k]),
{
    let ghost t = *topology;
    let mut slots: Vec<BulbSlot> = Vec::new();
    proof {
        reveal_strlit("c");
    }
    slots.push(
        BulbSlot {
            id: String::from_str("c"),
            ring: 0,
            index: 0,
            address: topology.center,
            disabled: topology.center == DISABLED_ADDRESS,
        },
    );
    let mut i: u16 = 0;
    while i < INNER_COUNT
        invariant
            t == *topology,
            topology.inner@.len() == INNER_COUNT as nat,
            i <= INNER_COUNT,
            slots@.len() == 1 + i,
            forall|k: int| 0 <= k < slots@.len() ==> is_canonical_slot(t, k, #[trigger] slots@[k]),
        decreases INNER_COUNT - i,
    {
        let address = topology.inner[i as usize];
        slots.push(
            BulbSlot {
                id: ring_slot_id(1, i),
                ring: 1,
                index: i,
                address,
                disabled: address == DISABLED_ADDRESS,
            },
        );
        assert(t.addresses()[1 + i as int] == topology.inner@[i as int]);
        i = i + 1;
    }
    let mut j: u16 = 0;
    while j < OUTER_COUNT
        invariant
            t == *topology,
            topology.inner@.len() == INNER_COUNT as nat,
            topology.outer@.len() == OUTER_COUNT as nat,
            j <= OUTER_COUNT,
            slots@.len() == 1 + INNER_COUNT + j,
            forall|k: int| 0 <= k < slots@.len() ==> is_canonical_slot(t, k, #[trigger] slots@[k]),
        decreases OUTER_COUNT - j,
    {
        let address = topology.outer[j as usize];
        slots.push(
            BulbSlot {
                id: ring_slot_id(2, j),
                ring: 2,
                index: j,
                address,
                disabled: address == DISABLED_ADDRESS,
            },
        );
        assert(t.addresses()[1 + INNER_COUNT + j as int] == topology.outer@[j as int]);
        j = j + 1;
    }
    slots
}


/// The disabled sentinel lies outside the legal i2c slave range, so it never
/// collides with a real device.
pub proof fn lemma_disabled_address_is_not_legal()
    ensures
        !is_legal_address(DISABLED_ADDRESS),
{
}

/// A topology that passes validation can be laid out: its rings have the
/// sizes [`bulbs`] needs, and among the slots [`bulbs`] builds from it every
/// enabled slot has a legal address and no two enabled slots share one.
pub proof fn lemma_validated_topology_lays_out(t: Topology, slots: Seq<BulbSlot>)
    requires
        topology_verdict(t) is Ok,
        slots.len() == TOTAL_BULBS as nat,
        forall|k: int| 0 <= k < slots.len() ==> is_canonical_slot(t, k, #[trigger] slots[k]),
    ensures
        t.inner@.len() == INNER_COUNT as nat,
        t.outer@.len() == OUTER_COUNT as nat,
        forall|k: int|
            0 <= k < slots.len() && !(#[trigger] slots[k]).disabled ==> is_legal_address(slots[k].address),
        forall|i: int, j: int|
            0 <= i < j < slots.len() && !(#[trigger] slots[i]).disabled && !(#[trigger] slots[j]).disabled
                ==> slots[i].address != slots[j].address,
{
    lemma_verdict_ok_iff_valid(t);
    let a = t.addresses();
    assert(a.len() == TOTAL_BULBS as nat);
    assert forall|k: int| 0 <= k < slots.len() && !(#[trigger] slots[k]).disabled implies is_legal_address(
        slots[k].address,
    ) by {
        assert(is_canonical_slot(t, k, slots[k]));
        assert(a[k] == slots[k].address);
    }
    assert forall|i: int, j: int|
        0 <= i < j < slots.len() && !(#[trigger] slots[i]).disabled && !(#[trigger] slots[j]).disabled
            implies slots[i].address != slots[j].address by {
        assert(is_canonical_slot(t, i, slots[i]));
        assert(is_canonical_slot(t, j, slots[j]));
        assert(a[i] != a[j]);
    }
}


proof fn lemma_decimal_distinct(a: nat, b: nat)
    requires
        a < 100,
        b < 100,
        a != b,
    ensures
        decimal(a) != decimal(b),
{
    if a >= 10 {
        assert(decimal(a / 10) == seq![digit(a / 10)]);
    }
    if b >= 10 {
        assert(decimal(b / 10) == seq![digit(b / 10)]);
    }
    if a >= 10 && b >= 10 {
        if decimal(a) == decimal(b) {
            assert(decimal(a)[0] == decimal(b)[0]);
            assert(decimal(a)[1] == decimal(b)[1]);
        }
    } else if a < 10 && b < 10 {
        if decimal(a) == decimal(b) {
            assert(decimal(a)[0] == decimal(b)[0]);
        }
    } else {
        assert(decimal(a).len() != decimal(b).len());
    }
}

/// No two canonical slots share an identifier.
pub proof fn lemma_slot_ids_distinct(k1: int, k2: int)
    requires
        0 <= k1 < k2 < TOTAL_BULBS,
    ensures
        slot_id(slot_ring(k1), slot_index(k1)) != slot_id(slot_ring(k2), slot_index(k2)),
{
    reveal_strlit("c");
    reveal_strlit("r1-");
    reveal_strlit("r2-");
    let id1 = slot_id(slot_ring(k1), slot_index(k1));
    let id2 = slot_id(slot_ring(k2), slot_index(k2));
    if slot_ring(k1) == 0 {
        assert(id2.len() > 3);
    } else if slot_ring(k1) == slot_ring(k2) {
        lemma_decimal_distinct(slot_index(k1) as nat, slot_index(k2) as nat);
        if id1 == id2 {
            assert(id1.skip(3) =~= decimal(slot_index(k1) as nat));
            assert(id2.skip(3) =~= decimal(slot_index(k2) as nat));
        }
    } else {
        assert(id1[1] != id2[1]);
    }
}

} // verus!
