use vstd::prelude::*;

verus! {

/// Number of slots in each placed-object collection.
pub const CAPACITY: usize = 128;

/// Sub-pixel units per pixel: every position is held in thousandths of a pixel.
pub const UNITS_PER_PIXEL: i32 = 1000;

/// A rectangular wall, in thousandths of a pixel.
#[derive(Copy, Clone, Debug, PartialEq, Eq, Structural)]
pub struct Wall {
    pub x: i32,
    pub y: i32,
    pub h: i32,
    pub w: i32,
}

/// A placed point charge; `is_neg == false` is a positive charge.
#[derive(Copy, Clone, Debug, PartialEq, Eq, Structural)]
pub struct Charge {
    pub x: i32,
    pub y: i32,
    pub is_neg: bool,
}

/// The charge currently held by the cursor, if any.
#[derive(Copy, Clone, Debug, PartialEq, Eq, Structural)]
pub enum AttachedCharge {
    Nothing,
    Positive,
    Negative,
}

/// Outcome of the current run. Only `Ongoing -> Win` is ever produced;
/// `Collision` and `Edit` are kept for later use.
#[derive(Copy, Clone, Debug, PartialEq, Eq, Structural)]
pub enum WinState {
    Ongoing,
    Win,
    Collision,
    Edit,
}

/// One snapshot of the game: used both as the editable draft and as the
/// live run state.
pub struct State {
    pub pause: bool,
    /// false is a positively charged puck
    pub neg_puck: bool,
    pub puck_x: i32,
    pub puck_y: i32,
    pub goal_x: i32,
    pub goal_y: i32,
    pub attached_charge: AttachedCharge,
    pub win_state: WinState,
    pub walls: Vec<Option<Wall>>,
    pub charges: Vec<Option<Charge>>,
}

/// Mathematical model of a `State`.
pub ghost struct StateModel {
    pub pause: bool,
    pub neg_puck: bool,
    pub puck_x: int,
    pub puck_y: int,
    pub goal_x: int,
    pub goal_y: int,
    pub attached_charge: AttachedCharge,
    pub win_state: WinState,
    pub walls: Seq<Option<Wall>>,
    pub charges: Seq<Option<Charge>>,
}

impl View for State {
    type V = StateModel;

    open spec fn view(&self) -> StateModel {
        StateModel {
            pause: self.pause,
            neg_puck: self.neg_puck,
            puck_x: self.puck_x as int,
            puck_y: self.puck_y as int,
            goal_x: self.goal_x as int,
            goal_y: self.goal_y as int,
            attached_charge: self.attached_charge,
            win_state: self.win_state,
            walls: self.walls@,
            charges: self.charges@,
        }
    }
}

impl StateModel {
    /// Both collections hold exactly `CAPACITY` slots.
    pub open spec fn wf(self) -> bool {
        self.walls.len() == CAPACITY && self.charges.len() == CAPACITY
    }
}

/// Number of occupied slots.
pub open spec fn occupied<T>(s: Seq<Option<T>>) -> nat
    decreases s.len(),
{
    if s.len() == 0 {
        0
    } else {
        occupied(s.drop_last()) + if s.last() is Some { 1nat } else { 0nat }
    }
}

/// Index of the first free slot, or `s.len()` when every slot is taken.
pub open spec fn first_free<T>(s: Seq<Option<T>>) -> int
    decreases s.len(),
{
    if s.len() == 0 {
        0
    } else if s[0] is None {
        0
    } else {
        1 + first_free(s.drop_first())
    }
}

/// `s` with every slot emptied.
pub open spec fn all_empty<T>(n: nat) -> Seq<Option<T>> {
    Seq::new(n, |i: int| None::<T>)
}

pub proof fn lemma_occupied_le<T>(s: Seq<Option<T>>)
    ensures
        occupied(s) <= s.len(),
    decreases s.len(),
{
    if s.len() > 0 {
        lemma_occupied_le(s.drop_last());
    }
}

pub proof fn lemma_occupied_update<T>(s: Seq<Option<T>>, i: int, v: Option<T>)
    requires
        0 <= i < s.len(),
    ensures
        occupied(s.update(i, v)) + (if s[i] is Some { 1int } else { 0int }) == occupied(s) + (
        if v is Some { 1int } else { 0int }),
    decreases s.len(),
{
    let t = s.update(i, v);
    if i == s.len() - 1 {
        assert(t.drop_last() =~= s.drop_last());
    } else {
        assert(t.drop_last() =~= s.drop_last().update(i, v));
        lemma_occupied_update(s.drop_last(), i, v);
    }
}

pub proof fn lemma_first_free<T>(s: Seq<Option<T>>)
    ensures
        0 <= first_free(s) <= s.len(),
        first_free(s) < s.len() ==> s[first_free(s)] is None,
        forall|j: int| 0 <= j < first_free(s) ==> s[j] is Some,
    decreases s.len(),
{
    if s.len() > 0 && s[0] is Some {
        lemma_first_free(s.drop_first());
        assert forall|j: int| 0 <= j < first_free(s) implies s[j] is Some by {
            if j > 0 {
                assert(s[j] == s.drop_first()[j - 1]);
            }
        }
    }
}

pub proof fn lemma_hole_below_full<T>(s: Seq<Option<T>>, i: int)
    requires
        0 <= i < s.len(),
        s[i] is None,
    ensures
        occupied(s) < s.len(),
    decreases s.len(),
{
    lemma_occupied_le(s.drop_last());
    if i < s.len() - 1 {
        lemma_hole_below_full(s.drop_last(), i);
    }
}

pub proof fn lemma_all_some_full<T>(s: Seq<Option<T>>)
    requires
        forall|j: int| 0 <= j < s.len() ==> s[j] is Some,
    ensures
        occupied(s) == s.len(),
    decreases s.len(),
{
    if s.len() > 0 {
        lemma_all_some_full(s.drop_last());
    }
}

pub proof fn lemma_full_has_no_free<T>(s: Seq<Option<T>>)
    requires
        occupied(s) == s.len(),
    ensures
        first_free(s) == s.len(),
{
    lemma_first_free(s);
    if first_free(s) < s.len() {
        lemma_hole_below_full(s, first_free(s));
    }
}

/// A collection of `n` empty slots.
pub fn empty_slots<T: Copy>(n: usize) -> (r: Vec<Option<T>>)
    ensures
        r@ == all_empty::<T>(n as nat),
{
    let mut r: Vec<Option<T>> = Vec::new();
    let mut i: usize = 0;
    while i < n
        invariant
            i <= n,
            r@ == all_empty::<T>(i as nat),
        decreases n - i,
    {
        r.push(None);
        i = i + 1;
        assert(r@ =~= all_empty::<T>(i as nat));
    }
    r
}

/// An exact copy of a slot collection.
pub fn copy_slots<T: Copy>(v: &Vec<Option<T>>) -> (r: Vec<Option<T>>)
    ensures
        r@ == v@,
{
    let mut r: Vec<Option<T>> = Vec::new();
    let mut i: usize = 0;
    while i < v.len()
        invariant
            i <= v.len(),
            r@ == v@.take(i as int),
        decreases v.len() - i,
    {
        r.push(v[i]);
        i = i + 1;
        assert(r@ =~= v@.take(i as int));
    }
    assert(v@.take(v.len() as int) =~= v@);
    r
}

/// The initial draft: puck at (150, 300), positive; goal at (650, 300);
/// nothing placed, nothing held.
pub open spec fn initial_draft() -> StateModel {
    StateModel {
        pause: false,
        neg_puck: false,
        puck_x: 150 * UNITS_PER_PIXEL,
        puck_y: 300 * UNITS_PER_PIXEL,
        goal_x: 650 * UNITS_PER_PIXEL,
        goal_y: 300 * UNITS_PER_PIXEL,
        attached_charge: AttachedCharge::Nothing,
        win_state: WinState::Ongoing,
        walls: all_empty::<Wall>(CAPACITY as nat),
        charges: all_empty::<Charge>(CAPACITY as nat),
    }
}

impl State {
    /// The initial draft.
    pub fn new() -> (r: State)
        ensures
            r@ == initial_draft(),
            r@.wf(),
    {
        State {
            pause: false,
            neg_puck: false,
            puck_x: 150 * UNITS_PER_PIXEL,
            puck_y: 300 * UNITS_PER_PIXEL,
            goal_x: 650 * UNITS_PER_PIXEL,
            goal_y: 300 * UNITS_PER_PIXEL,
            attached_charge: AttachedCharge::Nothing,
            win_state: WinState::Ongoing,
            walls: empty_slots(CAPACITY),
            charges: empty_slots(CAPACITY),
        }
    }

    /// A field-for-field copy.
    pub fn snapshot(&self) -> (r: State)
        ensures
            r@ == self@,
    {
        State {
            pause: self.pause,
            neg_puck: self.neg_puck,
            puck_x: self.puck_x,
            puck_y: self.puck_y,
            goal_x: self.goal_x,
            goal_y: self.goal_y,
            attached_charge: self.attached_charge,
            win_state: self.win_state,
            walls: copy_slots(&self.walls),
            charges: copy_slots(&self.charges),
        }
    }

    /// Number of charges placed.
    pub fn charge_count(&self) -> (r: usize)
        requires
            self.charges@.len() <= CAPACITY,
        ensures
            r == occupied(self.charges@),
    {
        let mut n: usize = 0;
        let mut i: usize = 0;
        while i < self.charges.len()
            invariant
                i <= self.charges@.len() <= CAPACITY,
                n == occupied(self.charges@.take(i as int)),
                n <= i,
            decreases self.charges.len() - i,
        {
            assert(self.charges@.take(i as int + 1).drop_last() =~= self.charges@.take(i as int));
            if self.charges[i].is_some() {
                n = n + 1;
            }
            i = i + 1;
        }
        assert(self.charges@.take(i as int) =~= self.charges@);
        n
    }
}

} // verus!
