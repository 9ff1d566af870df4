use charge_puck::force::{make_force, net_force, Force};
use charge_puck::game::{wasm_handle_mouse_down, wasm_handle_mouse_up, Game, ModeChange};
use charge_puck::physics::{
    initialize_physics, is_advancing, wasm_calc_physics_step, CollisionEvent, EngineHandle,
    PhysEventHandler,
};
use charge_puck::state::{AttachedCharge, Charge, State, WinState, CAPACITY};

fn px(v: i32) -> i32 {
    v * 1000
}

fn handler() -> PhysEventHandler {
    PhysEventHandler {
        goal_handle: EngineHandle { index: 0, generation: 0 },
        puck_collider_handle: EngineHandle { index: 4, generation: 0 },
        puck_handle: EngineHandle { index: 4, generation: 0 },
    }
}

fn goal_event() -> CollisionEvent {
    CollisionEvent {
        collider1: EngineHandle { index: 0, generation: 0 },
        collider2: EngineHandle { index: 4, generation: 0 },
        sensor: true,
    }
}

fn slots(list: &[Charge]) -> Vec<Option<Charge>> {
    let mut v: Vec<Option<Charge>> = vec![None; CAPACITY];
    for (i, c) in list.iter().enumerate() {
        v[i] = Some(*c);
    }
    v
}

fn place(game: &mut Game, positive: bool, x: i32, y: i32) {
    if positive {
        wasm_handle_mouse_down(game, px(745), px(625));
    } else {
        wasm_handle_mouse_down(game, px(775), px(625));
    }
    wasm_handle_mouse_up(game, x, y);
}

#[test]
fn it_works() {}

#[test]
fn initial_draft_values() {
    let s = State::new();
    assert_eq!((s.puck_x, s.puck_y), (px(150), px(300)));
    assert_eq!((s.goal_x, s.goal_y), (px(650), px(300)));
    assert!(!s.neg_puck && !s.pause);
    assert_eq!(s.attached_charge, AttachedCharge::Nothing);
    assert_eq!(s.win_state, WinState::Ongoing);
    assert_eq!(s.charges.len(), CAPACITY);
    assert_eq!(s.walls.len(), CAPACITY);
    assert_eq!(s.charge_count(), 0);
}

#[test]
fn same_polarity_charge_pulls_toward_it() {
    let charges = slots(&[Charge { x: px(150), y: px(310), is_neg: false }]);
    let f = net_force(px(150), px(300), false, &charges);
    assert_eq!(f, Force { x: 0, y: 100_000 });
}

#[test]
fn opposite_polarity_charge_pushes_away() {
    let charges = slots(&[Charge { x: px(150), y: px(310), is_neg: true }]);
    let f = net_force(px(150), px(300), false, &charges);
    assert_eq!(f, Force { x: 0, y: -100_000 });
}

#[test]
fn make_force_exact_values() {
    assert_eq!(make_force(0, 0, px(3), px(4)), Force { x: 120_000, y: 160_000 });
    assert_eq!(make_force(px(3), px(4), 0, 0), Force { x: -120_000, y: -160_000 });
    assert_eq!(make_force(0, 0, px(1), 0), Force { x: 1_000_000, y: 0 });
}

#[test]
fn charge_on_the_puck_contributes_nothing() {
    assert_eq!(make_force(px(10), px(10), px(10), px(10)), Force { x: 0, y: 0 });
}

#[test]
fn no_charges_no_force() {
    let charges = slots(&[]);
    assert_eq!(net_force(px(150), px(300), false, &charges), Force { x: 0, y: 0 });
    assert_eq!(net_force(-5, 7, true, &charges), Force { x: 0, y: 0 });
}

#[test]
fn force_ignores_charge_order() {
    let a = Charge { x: px(100), y: px(250), is_neg: false };
    let b = Charge { x: px(170), y: px(333), is_neg: true };
    let c = Charge { x: 123_456, y: 345_678, is_neg: false };
    let f1 = net_force(px(150), px(300), false, &slots(&[a, b, c]));
    let f2 = net_force(px(150), px(300), false, &slots(&[c, a, b]));
    let mut sparse: Vec<Option<Charge>> = vec![None; CAPACITY];
    sparse[127] = Some(a);
    sparse[40] = Some(b);
    sparse[3] = Some(c);
    let f3 = net_force(px(150), px(300), false, &sparse);
    assert_eq!(f1, f2);
    assert_eq!(f1, f3);
    assert_ne!(f1, Force { x: 0, y: 0 });
}

#[test]
fn basket_attaches_charges() {
    let mut g = Game::new();
    wasm_handle_mouse_down(&mut g, px(745), px(625));
    assert_eq!(g.base.attached_charge, AttachedCharge::Positive);
    wasm_handle_mouse_down(&mut g, px(775), px(625));
    assert_eq!(g.base.attached_charge, AttachedCharge::Negative);
    wasm_handle_mouse_up(&mut g, px(200), px(100));
    assert_eq!(g.base.charges[0], Some(Charge { x: px(200), y: px(100), is_neg: true }));
    assert_eq!(g.base.attached_charge, AttachedCharge::Nothing);
}

#[test]
fn drop_outside_playfield_is_lost() {
    let mut g = Game::new();
    place(&mut g, true, px(400), px(605));
    assert_eq!(g.base.charge_count(), 0);
    assert_eq!(g.base.attached_charge, AttachedCharge::Nothing);
}

#[test]
fn pick_up_nearest_first_slot() {
    let mut g = Game::new();
    place(&mut g, true, px(200), px(200));
    place(&mut g, false, px(300), px(300));
    wasm_handle_mouse_down(&mut g, px(303), px(304));
    assert_eq!(g.base.attached_charge, AttachedCharge::Negative);
    assert_eq!(g.base.charges[1], None);
    assert_eq!(g.base.charge_count(), 1);
    // the freed slot is filled first
    wasm_handle_mouse_up(&mut g, px(50), px(50));
    assert_eq!(g.base.charges[1], Some(Charge { x: px(50), y: px(50), is_neg: true }));
}

#[test]
fn pick_up_radius_is_strict() {
    let mut g = Game::new();
    place(&mut g, true, px(200), px(200));
    wasm_handle_mouse_down(&mut g, px(206), px(200));
    assert_eq!(g.base.attached_charge, AttachedCharge::Nothing);
    assert_eq!(g.base.charge_count(), 1);
    wasm_handle_mouse_down(&mut g, 205_999, px(200));
    assert_eq!(g.base.attached_charge, AttachedCharge::Positive);
    assert_eq!(g.base.charge_count(), 0);
}

#[test]
fn capacity_boundary() {
    let mut g = Game::new();
    for k in 0..129 {
        place(&mut g, k % 2 == 0, px(10 + (k % 50) * 10), px(10 + (k / 50) * 50));
        assert_eq!(g.base.attached_charge, AttachedCharge::Nothing);
    }
    assert_eq!(g.base.charge_count(), 128);
    let before: Vec<Option<Charge>> = g.base.charges.clone();
    place(&mut g, true, px(590), px(590));
    assert_eq!(g.base.charges, before);
    assert_eq!(g.base.attached_charge, AttachedCharge::Nothing);
}

#[test]
fn reset_in_edit_clears_charges() {
    let mut g = Game::new();
    place(&mut g, true, px(200), px(200));
    place(&mut g, false, px(250), px(200));
    assert_eq!(wasm_handle_mouse_up(&mut g, px(65), px(625)), ModeChange::Unchanged);
    assert_eq!(g.base.charge_count(), 0);
    assert!(!g.is_running());
}

#[test]
fn start_pause_reset_round_trip() {
    let mut g = Game::new();
    place(&mut g, true, px(200), px(200));
    assert_eq!(wasm_handle_mouse_up(&mut g, px(25), px(625)), ModeChange::Started);
    assert!(g.is_running());
    let h = handler();
    for k in 0..5 {
        let r = wasm_calc_physics_step(&mut g, &h, &vec![], px(150 + k), px(300));
        assert!(r.is_some());
    }
    assert_eq!(g.current.as_ref().map(|s| s.puck_x), Some(px(154)));
    assert_eq!(g.base.puck_x, px(150));
    assert_eq!(wasm_handle_mouse_up(&mut g, px(25), px(625)), ModeChange::Unchanged);
    assert!(g.current.as_ref().map(|s| s.pause).unwrap_or(false));
    assert_eq!(wasm_handle_mouse_up(&mut g, px(65), px(625)), ModeChange::Ended);
    assert!(!g.is_running());
    assert_eq!(g.base.puck_x, px(150));
    assert_eq!(g.base.puck_y, px(300));
    assert_eq!(g.base.charge_count(), 1);
    assert_eq!(g.base.charges[0], Some(Charge { x: px(200), y: px(200), is_neg: false }));
}

#[test]
fn editing_ignored_while_running() {
    let mut g = Game::new();
    wasm_handle_mouse_up(&mut g, px(25), px(625));
    wasm_handle_mouse_down(&mut g, px(745), px(625));
    assert_eq!(g.base.attached_charge, AttachedCharge::Nothing);
    wasm_handle_mouse_up(&mut g, px(100), px(100));
    assert_eq!(g.base.charge_count(), 0);
}

#[test]
fn paused_step_changes_nothing() {
    let mut g = Game::new();
    initialize_physics(&mut g);
    g.toggle_run_pause();
    assert!(!is_advancing(&g));
    let r = wasm_calc_physics_step(&mut g, &handler(), &vec![goal_event()], px(400), px(400));
    assert_eq!(r, None);
    let s = g.current.as_ref().unwrap();
    assert_eq!((s.puck_x, s.puck_y), (px(150), px(300)));
    assert_eq!(s.win_state, WinState::Ongoing);
}

#[test]
fn step_without_run_is_noop() {
    let mut g = Game::new();
    assert_eq!(wasm_calc_physics_step(&mut g, &handler(), &vec![], 1, 2), None);
    assert!(!g.is_running());
    assert_eq!(g.base.puck_x, px(150));
}

#[test]
fn step_returns_force_at_new_position() {
    let mut g = Game::new();
    place(&mut g, true, px(150), px(310));
    g.toggle_run_pause();
    assert!(is_advancing(&g));
    let r = wasm_calc_physics_step(&mut g, &handler(), &vec![], px(150), px(300));
    assert_eq!(r, Some(Force { x: 0, y: 100_000 }));
    let r = wasm_calc_physics_step(&mut g, &handler(), &vec![], px(150), px(305));
    assert_eq!(r, Some(Force { x: 0, y: 200_000 }));
}

#[test]
fn no_charges_zero_force_every_step() {
    let mut g = Game::new();
    g.toggle_run_pause();
    for k in 0..10 {
        let r = wasm_calc_physics_step(&mut g, &handler(), &vec![], px(150 + 3 * k), px(300 - k));
        assert_eq!(r, Some(Force { x: 0, y: 0 }));
    }
}

#[test]
fn goal_contact_wins_once() {
    let mut g = Game::new();
    g.toggle_run_pause();
    let h = handler();
    wasm_calc_physics_step(&mut g, &h, &vec![], px(600), px(300));
    assert_eq!(g.current.as_ref().unwrap().win_state, WinState::Ongoing);
    wasm_calc_physics_step(&mut g, &h, &vec![goal_event()], px(640), px(300));
    assert_eq!(g.current.as_ref().unwrap().win_state, WinState::Win);
    wasm_calc_physics_step(&mut g, &h, &vec![goal_event(), goal_event()], px(641), px(300));
    assert_eq!(g.current.as_ref().unwrap().win_state, WinState::Win);
}

#[test]
fn non_sensor_or_other_collider_ignored() {
    let h = handler();
    let mut s = State::new();
    let wall_hit = CollisionEvent { sensor: false, ..goal_event() };
    h.handle_collision_event(&mut s, wall_hit);
    assert_eq!(s.win_state, WinState::Ongoing);
    let post_hit = CollisionEvent {
        collider1: EngineHandle { index: 1, generation: 0 },
        collider2: EngineHandle { index: 2, generation: 0 },
        sensor: true,
    };
    h.handle_collision_event(&mut s, post_hit);
    assert_eq!(s.win_state, WinState::Ongoing);
    let stale = CollisionEvent {
        collider2: EngineHandle { index: 4, generation: 1 },
        ..goal_event()
    };
    h.handle_collision_event(&mut s, stale);
    assert_eq!(s.win_state, WinState::Ongoing);
    h.handle_collision_event(&mut s, goal_event());
    assert_eq!(s.win_state, WinState::Win);
    h.handle_collision_event(&mut s, goal_event());
    assert_eq!(s.win_state, WinState::Win);
}

#[test]
fn button_edges() {
    let mut g = Game::new();
    // on the rim of the play button
    assert_eq!(wasm_handle_mouse_up(&mut g, px(40), px(625)), ModeChange::Started);
    let mut g = Game::new();
    assert_eq!(wasm_handle_mouse_up(&mut g, 40_001, px(625)), ModeChange::Unchanged);
    assert!(!g.is_running());
}

#[test]
fn start_with_held_charge_keeps_draft() {
    let mut g = Game::new();
    place(&mut g, false, px(200), px(200));
    wasm_handle_mouse_down(&mut g, px(745), px(625));
    assert_eq!(g.base.attached_charge, AttachedCharge::Positive);
    assert_eq!(wasm_handle_mouse_up(&mut g, px(25), px(625)), ModeChange::Started);
    assert_eq!(g.base.attached_charge, AttachedCharge::Positive);
    let run = g.current.as_ref().unwrap();
    assert!(!run.pause);
    assert_eq!(run.win_state, WinState::Ongoing);
    wasm_calc_physics_step(&mut g, &handler(), &vec![goal_event()], px(170), px(310));
    assert_eq!(wasm_handle_mouse_up(&mut g, px(65), px(625)), ModeChange::Ended);
    assert_eq!(g.base.attached_charge, AttachedCharge::Positive);
    assert_eq!(g.base.charges[0], Some(Charge { x: px(200), y: px(200), is_neg: true }));
    assert_eq!(g.base.charge_count(), 1);
    assert_eq!((g.base.puck_x, g.base.puck_y), (px(150), px(300)));
    assert_eq!(g.base.win_state, WinState::Ongoing);
}

#[test]
fn event_with_puck_on_both_sides_ignored() {
    let h = handler();
    let mut s = State::new();
    let both = CollisionEvent {
        collider1: EngineHandle { index: 4, generation: 0 },
        collider2: EngineHandle { index: 4, generation: 0 },
        sensor: true,
    };
    h.handle_collision_event(&mut s, both);
    assert_eq!(s.win_state, WinState::Ongoing);
    let reversed = CollisionEvent {
        collider1: EngineHandle { index: 4, generation: 0 },
        collider2: EngineHandle { index: 0, generation: 0 },
        sensor: true,
    };
    h.handle_collision_event(&mut s, reversed);
    assert_eq!(s.win_state, WinState::Win);
}
