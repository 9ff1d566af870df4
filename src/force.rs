use vstd::prelude::*;
use vstd::arithmetic::div_mod::{lemma_div_is_ordered, lemma_div_multiples_vanish};
use crate::state::{Charge, CAPACITY};

verus! {

/// Force units per unit of `d / |d|^2` measured in pixels: forces are held in
/// millionths.
pub const FORCE_UNITS: i64 = 1_000_000;

/// `UNITS_PER_PIXEL * FORCE_UNITS`: with `D` in sub-pixel units,
/// `d / |d|^2` in force units is `D * PULL_SCALE / |D|^2`.
pub const PULL_SCALE: u128 = 1_000_000_000;

/// A 2D force in millionths.
#[derive(Copy, Clone, Debug, PartialEq, Eq, Structural)]
pub struct Force {
    pub x: i64,
    pub y: i64,
}

/// One component of `D / |D|^2` in force units, rounded toward zero.
/// A charge exactly on the puck (`|D|^2 == 0`) contributes nothing: this is
/// the floor chosen for the degenerate distance.
pub open spec fn scaled_component(d: int, dist2: int) -> int {
    if dist2 <= 0 {
        0
    } else if d >= 0 {
        (d * PULL_SCALE) / dist2
    } else {
        -((-d * PULL_SCALE) / dist2)
    }
}

/// The vector from the puck toward the charge, scaled by the inverse square
/// of their distance.
pub open spec fn toward(puck_x: int, puck_y: int, charge_x: int, charge_y: int) -> (int, int) {
    let dx = charge_x - puck_x;
    let dy = charge_y - puck_y;
    let dist2 = dx * dx + dy * dy;
    (scaled_component(dx, dist2), scaled_component(dy, dist2))
}

/// What one slot contributes: toward the charge when its polarity is the
/// puck's, away from it otherwise; nothing for an empty slot.
pub open spec fn slot_pull(puck_x: int, puck_y: int, neg_puck: bool, slot: Option<Charge>) -> (
    int,
    int,
) {
    match slot {
        Some(c) => {
            let t = toward(puck_x, puck_y, c.x as int, c.y as int);
            if c.is_neg == neg_puck {
                t
            } else {
                (-t.0, -t.1)
            }
        },
        None => (0, 0),
    }
}

/// Net force that the charges exert on the puck.
pub open spec fn field(puck_x: int, puck_y: int, neg_puck: bool, s: Seq<Option<Charge>>) -> (
    int,
    int,
)
    decreases s.len(),
{
    if s.len() == 0 {
        (0, 0)
    } else {
        let rest = field(puck_x, puck_y, neg_puck, s.drop_last());
        let last = slot_pull(puck_x, puck_y, neg_puck, s.last());
        (rest.0 + last.0, rest.1 + last.1)
    }
}

proof fn lemma_component_bound(a: int, dist2: int)
    requires
        0 <= a,
        a * a <= dist2,
        0 < dist2,
    ensures
        0 <= (a * PULL_SCALE) / dist2 <= PULL_SCALE,
{
    if a == 0 {
        assert(a * PULL_SCALE == 0);
    } else {
        assert(a <= a * a) by (nonlinear_arith)
            requires
                1 <= a,
        ;
        assert(a * PULL_SCALE <= dist2 * PULL_SCALE) by (nonlinear_arith)
            requires
                a <= dist2,
        ;
        assert(0 <= a * PULL_SCALE) by (nonlinear_arith)
            requires
                0 <= a,
        ;
        lemma_div_is_ordered(0, a * PULL_SCALE, dist2);
        lemma_div_is_ordered(a * PULL_SCALE, dist2 * PULL_SCALE, dist2);
        lemma_div_multiples_vanish(PULL_SCALE as int, dist2);
        assert(0int / dist2 == 0);
    }
}

/// `|d| * PULL_SCALE / dist2`, rounded down; zero when `dist2` is zero.
fn scaled_magnitude(a: u64, dist2: u128) -> (r: u64)
    requires
        a as int * a as int <= dist2,
        a <= 0x1_0000_0000,
    ensures
        dist2 == 0 ==> r == 0,
        dist2 > 0 ==> r == (a as int * PULL_SCALE) / dist2 as int,
        r <= PULL_SCALE,
{
    if dist2 == 0 {
        0
    } else {
        proof {
            lemma_component_bound(a as int, dist2 as int);
        }
        assert(a as u128 * PULL_SCALE <= 0x1_0000_0000 * PULL_SCALE) by (nonlinear_arith)
            requires
                a <= 0x1_0000_0000,
        ;
        ((a as u128 * PULL_SCALE) / dist2) as u64
    }
}

/// The pull of a charge at (`charge_x`, `charge_y`) on a puck at
/// (`puck_x`, `puck_y`): `d / |d|^2` with `d` the vector from puck to charge.
pub fn make_force(puck_x: i32, puck_y: i32, charge_x: i32, charge_y: i32) -> (r: Force)
    ensures
        (r.x as int, r.y as int) == toward(
            puck_x as int,
            puck_y as int,
            charge_x as int,
            charge_y as int,
        ),
        -(PULL_SCALE as int) <= r.x <= PULL_SCALE,
        -(PULL_SCALE as int) <= r.y <= PULL_SCALE,
{
    let dx: i64 = charge_x as i64 - puck_x as i64;
    let dy: i64 = charge_y as i64 - puck_y as i64;
    let ax: u64 = if dx >= 0 { dx as u64 } else { (-dx) as u64 };
    let ay: u64 = if dy >= 0 { dy as u64 } else { (-dy) as u64 };
    assert(ax as u128 * ax as u128 <= 0x1_0000_0000u128 * 0x1_0000_0000u128) by (nonlinear_arith)
        requires
            ax <= 0x1_0000_0000u64,
    ;
    assert(ay as u128 * ay as u128 <= 0x1_0000_0000u128 * 0x1_0000_0000u128) by (nonlinear_arith)
        requires
            ay <= 0x1_0000_0000u64,
    ;
    let dist2: u128 = ax as u128 * ax as u128 + ay as u128 * ay as u128;
    proof {
        assert(dx * dx == ax * ax) by (nonlinear_arith)
            requires
                ax == dx || ax == -dx,
        ;
        assert(dy * dy == ay * ay) by (nonlinear_arith)
            requires
                ay == dy || ay == -dy,
        ;
        assert(0 <= ay * ay) by (nonlinear_arith);
        assert(0 <= ax * ax) by (nonlinear_arith);
    }
    let mx = scaled_magnitude(ax, dist2);
    let my = scaled_magnitude(ay, dist2);
    let fx: i64 = if dx >= 0 { mx as i64 } else { -(mx as i64) };
    let fy: i64 = if dy >= 0 { my as i64 } else { -(my as i64) };
    Force { x: fx, y: fy }
}

/// The net force on a puck at (`puck_x`, `puck_y`) with polarity `neg_puck`
/// from every placed charge. Same polarity pulls, opposite polarity pushes.
pub fn net_force(puck_x: i32, puck_y: i32, neg_puck: bool, charges: &Vec<Option<Charge>>) -> (r:
    Force)
    requires
        charges@.len() <= CAPACITY,
    ensures
        (r.x as int, r.y as int) == field(puck_x as int, puck_y as int, neg_puck, charges@),
{
    let mut fx: i64 = 0;
    let mut fy: i64 = 0;
    let mut i: usize = 0;
    while i < charges.len()
        invariant
            i <= charges@.len() <= CAPACITY,
            (fx as int, fy as int) == field(
                puck_x as int,
                puck_y as int,
                neg_puck,
                charges@.take(i as int),
            ),
            -(i * PULL_SCALE) <= fx <= i * PULL_SCALE,
            -(i * PULL_SCALE) <= fy <= i * PULL_SCALE,
        decreases charges.len() - i,
    {
        assert(charges@.take(i as int + 1).drop_last() =~= charges@.take(i as int));
        if let Some(c) = charges[i] {
            let f = make_force(puck_x, puck_y, c.x, c.y);
            if c.is_neg == neg_puck {
                fx = fx + f.x;
                fy = fy + f.y;
            } else {
                fx = fx - f.x;
                fy = fy - f.y;
            }
        }
        i = i + 1;
    }
    assert(charges@.take(i as int) =~= charges@);
    Force { x: fx, y: fy }
}

proof fn lemma_field_remove(puck_x: int, puck_y: int, neg_puck: bool, s: Seq<Option<Charge>>, i: int)
    requires
        0 <= i < s.len(),
    ensures
        field(puck_x, puck_y, neg_puck, s).0 == field(puck_x, puck_y, neg_puck, s.remove(i)).0
            + slot_pull(puck_x, puck_y, neg_puck, s[i]).0,
        field(puck_x, puck_y, neg_puck, s).1 == field(puck_x, puck_y, neg_puck, s.remove(i)).1
            + slot_pull(puck_x, puck_y, neg_puck, s[i]).1,
    decreases s.len(),
{
    if i == s.len() - 1 {
        assert(s.remove(i) =~= s.drop_last());
    } else {
        assert(s.remove(i).drop_last() =~= s.drop_last().remove(i));
        assert(s.remove(i).last() == s.last());
        lemma_field_remove(puck_x, puck_y, neg_puck, s.drop_last(), i);
    }
}

/// The net force does not depend on the order of the charges: any two
/// collections holding the same slots, each as often, give the same force.
pub proof fn lemma_field_order_independent(
    puck_x: int,
    puck_y: int,
    neg_puck: bool,
    s1: Seq<Option<Charge>>,
    s2: Seq<Option<Charge>>,
)
    requires
        s1.to_multiset() == s2.to_multiset(),
    ensures
        field(puck_x, puck_y, neg_puck, s1) == field(puck_x, puck_y, neg_puck, s2),
    decreases s1.len(),
{
    broadcast use vstd::seq_lib::group_to_multiset_ensures;

    if s1.len() == 0 {
        assert(s2.to_multiset().len() == 0);
        assert(s2.len() == 0);
    } else {
        let a = s1.last();
        assert(s1.contains(a)) by {
            assert(s1[s1.len() - 1] == a);
        }
        assert(s2.to_multiset().count(a) > 0);
        assert(s2.contains(a));
        let j = choose|j: int| 0 <= j < s2.len() && s2[j] == a;
        assert(s1.remove(s1.len() - 1) =~= s1.drop_last());
        assert(s1.drop_last().to_multiset() == s1.to_multiset().remove(a));
        assert(s2.remove(j).to_multiset() == s2.to_multiset().remove(a));
        lemma_field_order_independent(puck_x, puck_y, neg_puck, s1.drop_last(), s2.remove(j));
        lemma_field_remove(puck_x, puck_y, neg_puck, s2, j);
    }
}

/// With no charge placed the net force is exactly zero.
pub proof fn lemma_field_of_empty_slots(
    puck_x: int,
    puck_y: int,
    neg_puck: bool,
    s: Seq<Option<Charge>>,
)
    requires
        forall|i: int| 0 <= i < s.len() ==> s[i] is None,
    ensures
        field(puck_x, puck_y, neg_puck, s) == (0int, 0int),
    decreases s.len(),
{
    if s.len() > 0 {
        lemma_field_of_empty_slots(puck_x, puck_y, neg_puck, s.drop_last());
    }
}

} // verus!
