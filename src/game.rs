use vstd::prelude::*;
use crate::physics::initialize_physics;
use crate::state::{WinState, lemma_first_free, lemma_occupied_le, lemma_full_has_no_free, lemma_occupied_update, lemma_all_some_full, occupied, initial_draft, all_empty, empty_slots, first_free, AttachedCharge, Charge, State, StateModel, CAPACITY};

verus! {

/// Pause/play button: circle centre and radius.
pub const PLAY_X: i32 = 25_000;
pub const PLAY_Y: i32 = 625_000;
/// Reset button: circle centre (same radius as the play button).
pub const RESET_X: i32 = 65_000;
pub const RESET_Y: i32 = 625_000;
pub const BUTTON_RADIUS: i64 = 15_000;
/// Charge basket: open rectangle, split into a positive and a negative half.
pub const BASKET_TOP: i32 = 610_000;
pub const BASKET_BOTTOM: i32 = 640_000;
pub const BASKET_LEFT: i32 = 730_000;
pub const BASKET_SPLIT: i32 = 760_000;
pub const BASKET_RIGHT: i32 = 790_000;
/// Charges live above this line.
pub const PLAYFIELD_BOTTOM: i32 = 600_000;
/// A placed charge is picked up by a press closer than this.
pub const PICKUP_RADIUS: i64 = 6_000;

pub open spec fn dist2(ax: int, ay: int, bx: int, by: int) -> int {
    (ax - bx) * (ax - bx) + (ay - by) * (ay - by)
}

pub open spec fn in_play_button(x: int, y: int) -> bool {
    dist2(x, y, PLAY_X as int, PLAY_Y as int) <= BUTTON_RADIUS * BUTTON_RADIUS
}

pub open spec fn in_reset_button(x: int, y: int) -> bool {
    dist2(x, y, RESET_X as int, RESET_Y as int) <= BUTTON_RADIUS * BUTTON_RADIUS
}

/// No point lies on both buttons.
pub proof fn lemma_buttons_apart(x: int, y: int)
    requires
        in_reset_button(x, y),
    ensures
        !in_play_button(x, y),
{
    let dx = x - RESET_X;
    let dy = y - RESET_Y;
    assert(dx * dx <= BUTTON_RADIUS * BUTTON_RADIUS) by (nonlinear_arith)
        requires
            dx * dx + dy * dy <= BUTTON_RADIUS * BUTTON_RADIUS,
    ;
    assert(-BUTTON_RADIUS <= dx <= BUTTON_RADIUS) by (nonlinear_arith)
        requires
            dx * dx <= BUTTON_RADIUS * BUTTON_RADIUS,
    ;
    let ex = x - PLAY_X;
    assert(ex >= 25_000);
    assert(ex * ex > BUTTON_RADIUS * BUTTON_RADIUS) by (nonlinear_arith)
        requires
            ex >= 25_000,
    ;
    assert(dy * dy >= 0) by (nonlinear_arith);
}

pub open spec fn in_basket_row(y: int) -> bool {
    BASKET_TOP < y < BASKET_BOTTOM
}

pub open spec fn in_positive_half(x: int) -> bool {
    BASKET_LEFT < x < BASKET_SPLIT
}

pub open spec fn in_negative_half(x: int) -> bool {
    BASKET_SPLIT < x < BASKET_RIGHT
}

pub open spec fn in_playfield(y: int) -> bool {
    y < PLAYFIELD_BOTTOM
}

pub open spec fn near(c: Charge, x: int, y: int) -> bool {
    dist2(x, y, c.x as int, c.y as int) < PICKUP_RADIUS * PICKUP_RADIUS
}

/// Index of the first placed charge near (`x`, `y`), or `s.len()` if none.
pub open spec fn pickup_index(s: Seq<Option<Charge>>, x: int, y: int) -> int
    decreases s.len(),
{
    if s.len() == 0 {
        0
    } else if s[0] is Some && near(s[0]->Some_0, x, y) {
        0
    } else {
        1 + pickup_index(s.drop_first(), x, y)
    }
}

pub open spec fn polarity_of(c: Charge) -> AttachedCharge {
    if c.is_neg {
        AttachedCharge::Negative
    } else {
        AttachedCharge::Positive
    }
}

pub proof fn lemma_pickup_index(s: Seq<Option<Charge>>, x: int, y: int)
    ensures
        0 <= pickup_index(s, x, y) <= s.len(),
        pickup_index(s, x, y) < s.len() ==> s[pickup_index(s, x, y)] is Some,
    decreases s.len(),
{
    if s.len() > 0 && !(s[0] is Some && near(s[0]->Some_0, x, y)) {
        lemma_pickup_index(s.drop_first(), x, y);
    }
}

/// The draft after dropping the held charge at (`x`, `y`): it goes into the
/// first free slot if there is one and the point is in the playfield;
/// either way nothing is held afterwards.
pub open spec fn placed(s: StateModel, x: int, y: int) -> StateModel {
    if s.attached_charge == AttachedCharge::Nothing {
        s
    } else {
        let i = first_free(s.charges);
        let c = Charge { x: x as i32, y: y as i32, is_neg: s.attached_charge == AttachedCharge::Negative };
        StateModel {
            charges: if i < s.charges.len() && in_playfield(y) {
                s.charges.update(i, Some(c))
            } else {
                s.charges
            },
            attached_charge: AttachedCharge::Nothing,
            ..s
        }
    }
}

/// The draft after a press at (`x`, `y`) takes up the first charge near it.
pub open spec fn picked_up(s: StateModel, x: int, y: int) -> StateModel {
    let i = pickup_index(s.charges, x, y);
    if i < s.charges.len() {
        StateModel {
            attached_charge: polarity_of(s.charges[i]->Some_0),
            charges: s.charges.update(i, None),
            ..s
        }
    } else {
        s
    }
}

/// Dropping a held charge stores it exactly when a slot is free and the
/// point is in the playfield, never lets the collection grow past its
/// capacity, and always leaves nothing held.
pub proof fn lemma_placement_capacity(s: StateModel, x: int, y: int)
    requires
        s.wf(),
        s.attached_charge != AttachedCharge::Nothing,
    ensures
        placed(s, x, y).wf(),
        placed(s, x, y).attached_charge == AttachedCharge::Nothing,
        occupied(placed(s, x, y).charges) == if occupied(s.charges) < CAPACITY && in_playfield(y) {
            occupied(s.charges) + 1
        } else {
            occupied(s.charges)
        },
        occupied(placed(s, x, y).charges) <= CAPACITY,
{
    let i = first_free(s.charges);
    lemma_first_free(s.charges);
    lemma_occupied_le(s.charges);
    if occupied(s.charges) == CAPACITY {
        lemma_full_has_no_free(s.charges);
    } else if i < s.charges.len() {
        let c = Charge { x: x as i32, y: y as i32, is_neg: s.attached_charge == AttachedCharge::Negative };
        lemma_occupied_update(s.charges, i, Some(c));
    } else {
        assert forall|j: int| 0 <= j < s.charges.len() implies s.charges[j] is Some by {}
        lemma_all_some_full(s.charges);
    }
}

/// Mathematical model of a `Game`.
pub ghost struct GameModel {
    pub base: StateModel,
    pub current: Option<StateModel>,
}

impl GameModel {
    pub open spec fn wf(self) -> bool {
        &&& self.base.wf()
        &&& !self.base.pause
        &&& self.base.win_state == WinState::Ongoing
        &&& self.current matches Some(s) ==> s.wf()
    }

    pub open spec fn editing(self) -> bool {
        self.current is None
    }

    /// Start a run from a copy of the draft, or flip the pause flag.
    pub open spec fn toggled(self) -> GameModel {
        match self.current {
            None => GameModel { current: Some(self.base), ..self },
            Some(s) => GameModel { current: Some(StateModel { pause: !s.pause, ..s }), ..self },
        }
    }

    /// End the run; in edit mode, clear every placed charge instead.
    pub open spec fn reset(self) -> GameModel {
        match self.current {
            Some(_) => GameModel { current: None, ..self },
            None => GameModel {
                base: StateModel { charges: all_empty::<Charge>(self.base.charges.len()), ..self.base },
                ..self
            },
        }
    }

    pub open spec fn attached(self, which: AttachedCharge) -> GameModel {
        if self.editing() {
            GameModel { base: StateModel { attached_charge: which, ..self.base }, ..self }
        } else {
            self
        }
    }

    pub open spec fn dropped(self, x: int, y: int) -> GameModel {
        if self.editing() {
            GameModel { base: placed(self.base, x, y), ..self }
        } else {
            self
        }
    }

    pub open spec fn lifted(self, x: int, y: int) -> GameModel {
        if self.editing() && in_playfield(y) {
            GameModel { base: picked_up(self.base, x, y), ..self }
        } else {
            self
        }
    }

    /// A press: take a charge from the basket or from the playfield.
    pub open spec fn pressed(self, x: int, y: int) -> GameModel {
        if !self.editing() {
            self
        } else if in_basket_row(y) {
            if in_positive_half(x) {
                self.attached(AttachedCharge::Positive)
            } else if in_negative_half(x) {
                self.attached(AttachedCharge::Negative)
            } else {
                self
            }
        } else {
            self.lifted(x, y)
        }
    }

    /// A release: the buttons, else dropping the held charge.
    pub open spec fn released(self, x: int, y: int) -> GameModel {
        if in_play_button(x, y) {
            self.toggled()
        } else if in_reset_button(x, y) {
            self.reset()
        } else {
            self.dropped(x, y)
        }
    }
}

/// What a release did to the mode.
#[derive(Copy, Clone, Debug, PartialEq, Eq, Structural)]
pub enum ModeChange {
    Unchanged,
    /// A run began: the physics engine has to be built.
    Started,
    /// The run ended: the physics engine has to be dropped.
    Ended,
}

/// The whole game: the editable draft and, while running, the live run.
pub struct Game {
    pub base: State,
    pub current: Option<State>,
}

impl View for Game {
    type V = GameModel;

    open spec fn view(&self) -> GameModel {
        GameModel {
            base: self.base@,
            current: match self.current {
                Some(s) => Some(s@),
                None => None,
            },
        }
    }
}

fn dist2_exec(ax: i32, ay: i32, bx: i32, by: i32) -> (r: i128)
    ensures
        r == dist2(ax as int, ay as int, bx as int, by as int),
{
    let dx: i128 = ax as i128 - bx as i128;
    let dy: i128 = ay as i128 - by as i128;
    assert(dx * dx <= 0x1_0000_0000 * 0x1_0000_0000 && 0 <= dx * dx) by (nonlinear_arith)
        requires
            -0x1_0000_0000 <= dx <= 0x1_0000_0000,
    ;
    assert(dy * dy <= 0x1_0000_0000 * 0x1_0000_0000 && 0 <= dy * dy) by (nonlinear_arith)
        requires
            -0x1_0000_0000 <= dy <= 0x1_0000_0000,
    ;
    dx * dx + dy * dy
}

pub fn is_in_play_button(x: i32, y: i32) -> (r: bool)
    ensures
        r == in_play_button(x as int, y as int),
{
    dist2_exec(x, y, PLAY_X, PLAY_Y) <= (BUTTON_RADIUS * BUTTON_RADIUS) as i128
}

pub fn is_in_reset_button(x: i32, y: i32) -> (r: bool)
    ensures
        r == in_reset_button(x as int, y as int),
{
    dist2_exec(x, y, RESET_X, RESET_Y) <= (BUTTON_RADIUS * BUTTON_RADIUS) as i128
}

impl State {
    /// Index of the first placed charge near (`x`, `y`), or the length.
    pub fn find_pickup(&self, x: i32, y: i32) -> (r: usize)
        ensures
            r == pickup_index(self.charges@, x as int, y as int),
    {
        let mut i: usize = 0;
        assert(self.charges@.skip(0) =~= self.charges@);
        while i < self.charges.len()
            invariant
                i <= self.charges@.len(),
                pickup_index(self.charges@, x as int, y as int) == i + pickup_index(
                    self.charges@.skip(i as int),
                    x as int,
                    y as int,
                ),
            decreases self.charges.len() - i,
        {
            let ghost s = self.charges@.skip(i as int);
            assert(s.drop_first() =~= self.charges@.skip(i as int + 1));
            if let Some(c) = self.charges[i] {
                if dist2_exec(x, y, c.x, c.y) < (PICKUP_RADIUS * PICKUP_RADIUS) as i128 {
                    return i;
                }
            }
            i = i + 1;
        }
        i
    }

    /// Index of the first free charge slot, or the length.
    pub fn find_free(&self) -> (r: usize)
        ensures
            r == first_free(self.charges@),
    {
        let mut i: usize = 0;
        assert(self.charges@.skip(0) =~= self.charges@);
        while i < self.charges.len()
            invariant
                i <= self.charges@.len(),
                first_free(self.charges@) == i + first_free(self.charges@.skip(i as int)),
            decreases self.charges.len() - i,
        {
            let ghost s = self.charges@.skip(i as int);
            assert(s.drop_first() =~= self.charges@.skip(i as int + 1));
            if self.charges[i].is_none() {
                return i;
            }
            i = i + 1;
        }
        i
    }

    /// Drop the held charge at (`x`, `y`).
    pub fn place_charge(&mut self, x: i32, y: i32)
        ensures
            final(self)@ == placed(old(self)@, x as int, y as int),
            old(self)@.wf() ==> final(self)@.wf(),
    {
        if self.attached_charge != AttachedCharge::Nothing {
            let i = self.find_free();
            if i < self.charges.len() && y < PLAYFIELD_BOTTOM {
                let c = Charge { x, y, is_neg: self.attached_charge == AttachedCharge::Negative };
                self.charges.set(i, Some(c));
            }
            self.attached_charge = AttachedCharge::Nothing;
        }
    }

    /// Take up the first charge near (`x`, `y`), if any.
    pub fn pick_up_charge(&mut self, x: i32, y: i32)
        ensures
            final(self)@ == picked_up(old(self)@, x as int, y as int),
            old(self)@.wf() ==> final(self)@.wf(),
    {
        let i = self.find_pickup(x, y);
        proof {
            lemma_pickup_index(self.charges@, x as int, y as int);
        }
        if i < self.charges.len() {
            if let Some(c) = self.charges[i] {
                self.attached_charge = if c.is_neg {
                    AttachedCharge::Negative
                } else {
                    AttachedCharge::Positive
                };
            }
            self.charges.set(i, None);
        }
    }
}

impl Game {
    pub open spec fn wf(&self) -> bool {
        self@.wf()
    }

    /// A game in edit mode over the initial draft.
    pub fn new() -> (r: Game)
        ensures
            r.wf(),
            r@.editing(),
            r@.base == initial_draft(),
    {
        Game { base: State::new(), current: None }
    }

    pub fn is_running(&self) -> (r: bool)
        ensures
            r == !self@.editing(),
    {
        self.current.is_some()
    }

    /// Hold a charge of the given polarity (edit mode only).
    pub fn attach_charge(&mut self, which: AttachedCharge)
        ensures
            final(self)@ == old(self)@.attached(which),
            old(self).wf() ==> final(self).wf(),
    {
        if self.current.is_none() {
            self.base.attached_charge = which;
        }
    }

    /// Drop the held charge at (`x`, `y`) (edit mode only).
    pub fn place_charge(&mut self, x: i32, y: i32)
        ensures
            final(self)@ == old(self)@.dropped(x as int, y as int),
            old(self).wf() ==> final(self).wf(),
    {
        if self.current.is_none() {
            self.base.place_charge(x, y);
        }
    }

    /// Take up the first placed charge near (`x`, `y`) (edit mode, playfield only).
    pub fn pick_up_charge(&mut self, x: i32, y: i32)
        ensures
            final(self)@ == old(self)@.lifted(x as int, y as int),
            old(self).wf() ==> final(self).wf(),
    {
        if self.current.is_none() && y < PLAYFIELD_BOTTOM {
            self.base.pick_up_charge(x, y);
        }
    }

    /// Start a run from a snapshot of the draft, or flip the pause flag.
    pub fn toggle_run_pause(&mut self)
        requires
            old(self).wf(),
        ensures
            final(self).wf(),
            final(self)@ == old(self)@.toggled(),
    {
        match self.current {
            Some(ref mut s) => {
                s.pause = !s.pause;
            },
            None => {
                initialize_physics(self);
            },
        }
    }

    /// End the run; in edit mode, clear every placed charge instead.
    pub fn reset_to_edit(&mut self)
        requires
            old(self).wf(),
        ensures
            final(self).wf(),
            final(self)@ == old(self)@.reset(),
    {
        if self.current.is_some() {
            self.current = None;
        } else {
            self.base.charges = empty_slots(CAPACITY);
        }
    }
}

/// A press at (`mousex`, `mousey`): take a charge from the basket, or pick up
/// a placed one. Ignored while running.
pub fn wasm_handle_mouse_down(game: &mut Game, mousex: i32, mousey: i32)
    ensures
        final(game)@ == old(game)@.pressed(mousex as int, mousey as int),
{
    if game.current.is_none() {
        if BASKET_TOP < mousey && mousey < BASKET_BOTTOM {
            if BASKET_LEFT < mousex && mousex < BASKET_SPLIT {
                game.attach_charge(AttachedCharge::Positive);
            } else if BASKET_SPLIT < mousex && mousex < BASKET_RIGHT {
                game.attach_charge(AttachedCharge::Negative);
            }
        } else {
            game.pick_up_charge(mousex, mousey);
        }
    }
}

/// A release at (`mousex`, `mousey`): the play/pause and reset buttons, else
/// dropping the held charge.
pub fn wasm_handle_mouse_up(game: &mut Game, mousex: i32, mousey: i32) -> (r: ModeChange)
    requires
        old(game).wf(),
    ensures
        final(game).wf(),
        final(game)@ == old(game)@.released(mousex as int, mousey as int),
        r == (if old(game)@.editing() && !final(game)@.editing() {
            ModeChange::Started
        } else if !old(game)@.editing() && final(game)@.editing() {
            ModeChange::Ended
        } else {
            ModeChange::Unchanged
        }),
{
    if is_in_play_button(mousex, mousey) {
        if game.current.is_some() {
            game.toggle_run_pause();
            ModeChange::Unchanged
        } else {
            game.toggle_run_pause();
            ModeChange::Started
        }
    } else if is_in_reset_button(mousex, mousey) {
        let running = game.current.is_some();
        game.reset_to_edit();
        if running {
            ModeChange::Ended
        } else {
            ModeChange::Unchanged
        }
    } else {
        game.place_charge(mousex, mousey);
        ModeChange::Unchanged
    }
}

} // verus!
