//! The game as a whole: the phase machine and the world, the events that
//! reach them from outside, and the frame that the scheduler runs.
//!
//! A frame first commits a pending change of phase, running the hooks of
//! the phase that is left and of the phase that is entered, and afterwards
//! runs the systems of the phase it finds itself in. While the menu is
//! shown that is the button system. While the table is shown it is, in this
//! order, the timer system, the re-orientation of the cards and the step
//! that brings their look in line.

use vstd::prelude::*;
use crate::button::Interaction;
use crate::menu::{
    button_system, buttons_answered, clear_main_menu, main_menu, menu_cleared, point_at,
    pointed_at, requested, setup_main_menu, slot_request,
};
use crate::solitaire::{
    can_drag, cards_look_right, cards_settled, deck_card_count, drag, drag_end, drag_fits,
    dragged, lemma_cards_look_right_after_the_pass, many_signals,
    periodic_timer_system, random_rotation_system, released, rotation_transformation_system,
    rotations_after_signal, rotations_shown, setup_solitaire, signals, table, timers_ticked,
};
use crate::state::{GameState, StateMachine, StateTransition};
use crate::world::{under_tagged, well_formed, Body, Slot, World};

verus! {

/// Whether the slot holds a timer that exists and drives the cards.
pub open spec fn is_rotation_timer(slot: Slot) -> bool {
    &&& slot.alive
    &&& slot.body matches Body::Timer(unit)
    &&& unit.drives_rotation
}

/// Whether the world holds no timer that drives the cards.
pub open spec fn no_rotation_timer(slots: Seq<Slot>) -> bool {
    forall|i: int| 0 <= i < slots.len() ==> !is_rotation_timer(#[trigger] slots[i])
}

/// Whether the world holds at most one timer that drives the cards.
pub open spec fn at_most_one_rotation_timer(slots: Seq<Slot>) -> bool {
    forall|i: int, j: int|
        0 <= i < slots.len() && 0 <= j < slots.len() && is_rotation_timer(#[trigger] slots[i])
            && is_rotation_timer(#[trigger] slots[j]) ==> i == j
}

/// Whether every button that exists asks for the card table when pressed.
pub open spec fn buttons_start_play(slots: Seq<Slot>) -> bool {
    forall|i: int|
        0 <= i < slots.len() && (#[trigger] slots[i]).alive ==> (slots[i].body matches Body::Button(
            button,
        ) ==> button.on_press == Some(GameState::Solitaire))
}

/// Whether the request that stands fits the present phase: from loading the
/// game goes to the menu, from the menu to the table, and from the table
/// nowhere.
pub open spec fn request_fits(machine: StateMachine) -> bool {
    match machine.current {
        GameState::Loading => machine.pending is None || machine.pending == Some(GameState::Menu),
        GameState::Menu => machine.pending is None || machine.pending == Some(
            GameState::Solitaire,
        ),
        GameState::Solitaire => machine.pending is None,
    }
}

/// The invariant of the game. The world is well formed; it never holds
/// more than one timer that drives the cards, and none before the table is
/// laid; the buttons ask for the table; every card is drawn the way it
/// points unless its orientation is waiting to be shown; and the pending
/// request fits the phase.
pub open spec fn coherent(machine: StateMachine, slots: Seq<Slot>) -> bool {
    &&& well_formed(slots)
    &&& at_most_one_rotation_timer(slots)
    &&& machine.current != GameState::Solitaire ==> no_rotation_timer(slots)
    &&& buttons_start_play(slots)
    &&& cards_settled(slots)
    &&& request_fits(machine)
}

/// The slots after the hooks of a transition have run: first the hook of
/// the phase that is left, which for the menu clears the menu away, and
/// after it the hook of the phase that is entered, which for the menu puts
/// up the menu and for the table lays the table. A transition from a phase
/// to itself runs no hook.
pub open spec fn hooks_run(slots: Seq<Slot>, transition: StateTransition) -> Seq<Slot> {
    if !transition.runs_hooks() {
        slots
    } else {
        let left = if transition.exited == GameState::Menu {
            menu_cleared(slots)
        } else {
            slots
        };
        match transition.entered {
            GameState::Menu => left + main_menu(left.len() as usize),
            GameState::Solitaire => left + table(left.len() as usize),
            GameState::Loading => left,
        }
    }
}

/// The slots after the pending request, if any, has been committed.
pub open spec fn transitioned(machine: StateMachine, slots: Seq<Slot>) -> Seq<Slot> {
    match machine.transition() {
        Some(transition) => hooks_run(slots, transition),
        None => slots,
    }
}

/// The request that stands after the systems of the present phase have
/// run: only the buttons of the menu ask for anything.
pub open spec fn request_after_update(machine: StateMachine, slots: Seq<Slot>) -> Option<
    GameState,
> {
    match machine.current {
        GameState::Menu => requested(slots, slots.len() as int, machine.pending),
        _ => machine.pending,
    }
}

/// The slots after the systems of the present phase have run for a frame
/// of length `delta`, with `draws` as the bytes drawn for the cards.
pub open spec fn slots_after_update(
    machine: StateMachine,
    slots: Seq<Slot>,
    delta: u64,
    draws: Seq<u8>,
) -> Seq<Slot> {
    match machine.current {
        GameState::Loading => slots,
        GameState::Menu => buttons_answered(slots),
        GameState::Solitaire => rotations_shown(
            rotations_after_signal(timers_ticked(slots, delta), draws),
        ),
    }
}

/// The number of draws that a frame of length `delta` has room for: one
/// for each deck card while the table is shown, and none otherwise. The
/// draws are used only if the timer fires in the frame.
pub open spec fn draws_needed(machine: StateMachine, slots: Seq<Slot>, delta: u64) -> nat {
    match machine.current {
        GameState::Solitaire => deck_card_count(timers_ticked(slots, delta)),
        _ => 0,
    }
}

/// The phase machine after one frame: the pending request is committed,
/// and the request that the systems of the new phase make stands.
pub open spec fn machine_after_frame(machine: StateMachine, slots: Seq<Slot>) -> StateMachine {
    StateMachine {
        current: machine.committed().current,
        pending: request_after_update(machine.committed(), transitioned(machine, slots)),
    }
}

/// The slots after one frame of length `delta`, with `draws` as the bytes
/// drawn for the cards: the hooks of the committed transition have run,
/// and after them the systems of the new phase.
pub open spec fn slots_after_frame(
    machine: StateMachine,
    slots: Seq<Slot>,
    delta: u64,
    draws: Seq<u8>,
) -> Seq<Slot> {
    slots_after_update(machine.committed(), transitioned(machine, slots), delta, draws)
}

/// The game: its phase and its world.
pub struct Game {
    state: StateMachine,
    world: World,
}

impl Game {
    /// The phase machine of the game.
    pub closed spec fn machine(&self) -> StateMachine {
        self.state
    }

    /// The slots of the game's world.
    pub closed spec fn slots(&self) -> Seq<Slot> {
        self.world@
    }

    /// The invariant of the game.
    pub open spec fn wf(&self) -> bool {
        coherent(self.machine(), self.slots())
    }

    /// A new game: loading, nothing requested, nothing in the world.
    pub fn new() -> (game: Game)
        ensures
            game.wf(),
            game.machine() == (StateMachine { current: GameState::Loading, pending: None }),
            game.slots() == Seq::<Slot>::empty(),
    {
        Game { state: StateMachine::new(), world: World::new() }
    }

    /// The present phase.
    pub fn state(&self) -> (current: GameState)
        ensures
            current == self.machine().current,
    {
        self.state.current
    }

    /// The phase that has been requested and not yet committed.
    pub fn pending(&self) -> (pending: Option<GameState>)
        ensures
            pending == self.machine().pending,
    {
        self.state.pending
    }

    /// The world, to look at.
    pub fn world(&self) -> (world: &World)
        requires
            self.wf(),
        ensures
            world@ == self.slots(),
            world.wf(),
    {
        &self.world
    }

    /// Tells the game that loading has completed. While the game is
    /// loading this requests the menu; in any other phase it does nothing.
    pub fn assets_loaded(&mut self)
        requires
            old(self).wf(),
        ensures
            final(self).wf(),
            final(self).machine() == old(self).machine().after_loading(),
            final(self).slots() == old(self).slots(),
    {
        self.state.assets_loaded();
    }

    /// Records what the pointer does to `entity`. Only a button that
    /// exists takes note.
    pub fn point_at(&mut self, entity: usize, interaction: Interaction)
        requires
            old(self).wf(),
        ensures
            final(self).wf(),
            final(self).machine() == old(self).machine(),
            final(self).slots() == pointed_at(old(self).slots(), entity as int, interaction),
    {
        point_at(&mut self.world, entity, interaction);
        proof {
            lemma_bodies_of_a_kind_keep_coherence(self.state, old(self).world@, self.world@);
        }
    }

    /// Says whether `entity` is a card that can follow the pointer by
    /// `(dx, dy)`.
    pub fn drag_fits(&self, entity: usize, dx: i32, dy: i32) -> (fits: bool)
        ensures
            fits == can_drag(self.slots(), entity as int, dx, dy),
    {
        drag_fits(&self.world, entity, dx, dy)
    }

    /// Drags the card `entity` by the pointer's movement `(dx, dy)`.
    pub fn drag(&mut self, entity: usize, dx: i32, dy: i32)
        requires
            old(self).wf(),
            can_drag(old(self).slots(), entity as int, dx, dy),
        ensures
            final(self).wf(),
            final(self).machine() == old(self).machine(),
            final(self).slots() == dragged(old(self).slots(), entity as int, dx, dy),
    {
        drag(&mut self.world, entity, dx, dy);
        proof {
            lemma_bodies_of_a_kind_keep_coherence(self.state, old(self).world@, self.world@);
        }
    }

    /// Ends the drag of `entity`.
    pub fn drag_end(&mut self, entity: usize)
        requires
            old(self).wf(),
        ensures
            final(self).wf(),
            final(self).machine() == old(self).machine(),
            final(self).slots() == released(old(self).slots(), entity as int),
    {
        drag_end(&mut self.world, entity);
        proof {
            lemma_bodies_of_a_kind_keep_coherence(self.state, old(self).world@, self.world@);
        }
    }

    /// Commits the pending request, if there is one, and runs the hooks of
    /// the transition: leaving the menu clears it away, entering the menu
    /// puts it up, entering the table lays the table. The hook of the phase
    /// that is left runs before the hook of the phase that is entered.
    pub fn apply_transition(&mut self) -> (transition: Option<StateTransition>)
        requires
            old(self).wf(),
        ensures
            final(self).wf(),
            transition == old(self).machine().transition(),
            final(self).machine() == old(self).machine().committed(),
            final(self).slots() == transitioned(old(self).machine(), old(self).slots()),
    {
        let transition = self.state.apply_transition();
        match transition {
            Some(change) => {
                run_hooks(&mut self.world, change);
                proof {
                    lemma_hooks_keep_coherence(old(self).state, old(self).world@);
                }
            },
            None => {},
        }
        transition
    }

    /// Runs the systems of the present phase for a frame of length
    /// `delta`. While the game loads, nothing runs. While the menu is
    /// shown, the buttons answer the pointer. While the table is shown,
    /// the timers are carried through the frame, the cards are re-oriented
    /// if the timer has fired, and the cards are made to look the way they
    /// point: all three within this one frame.
    pub fn update(&mut self, delta: u64)
        requires
            old(self).wf(),
        ensures
            final(self).wf(),
            final(self).machine().current == old(self).machine().current,
            final(self).machine().pending == request_after_update(
                old(self).machine(),
                old(self).slots(),
            ),
            exists|draws: Seq<u8>|
                draws.len() == draws_needed(old(self).machine(), old(self).slots(), delta)
                    && final(self).slots() == #[trigger] slots_after_update(
                    old(self).machine(),
                    old(self).slots(),
                    delta,
                    draws,
                ),
            old(self).machine().current == GameState::Solitaire ==> cards_look_right(
                final(self).slots(),
            ),
    {
        match self.state.current {
            GameState::Loading => {
                assert(self.world@ == slots_after_update(
                    old(self).state,
                    old(self).world@,
                    delta,
                    Seq::<u8>::empty(),
                ));
            },
            GameState::Menu => {
                button_system(&mut self.world, &mut self.state);
                proof {
                    lemma_bodies_of_a_kind_keep_coherence(
                        old(self).state,
                        old(self).world@,
                        self.world@,
                    );
                    lemma_buttons_ask_for_the_table(
                        old(self).world@,
                        old(self).world@.len() as int,
                        old(self).state.pending,
                    );
                    assert(self.world@ == slots_after_update(
                        old(self).state,
                        old(self).world@,
                        delta,
                        Seq::<u8>::empty(),
                    ));
                }
            },
            GameState::Solitaire => {
                periodic_timer_system(&mut self.world, delta);
                let ghost ticked = self.world@;
                proof {
                    lemma_bodies_of_a_kind_keep_coherence(self.state, old(self).world@, ticked);
                    lemma_one_timer_one_signal(ticked);
                }
                random_rotation_system(&mut self.world);
                let ghost turned = self.world@;
                let ghost draws = choose|draws: Seq<u8>|
                    draws.len() == deck_card_count(ticked) && turned
                        == #[trigger] rotations_after_signal(ticked, draws);
                proof {
                    lemma_bodies_of_a_kind_keep_coherence(self.state, ticked, turned);
                }
                rotation_transformation_system(&mut self.world);
                proof {
                    lemma_cards_look_right_after_the_pass(turned);
                    lemma_bodies_of_a_kind_keep_coherence(self.state, turned, self.world@);
                    assert(self.world@ == slots_after_update(
                        old(self).state,
                        old(self).world@,
                        delta,
                        draws,
                    ));
                }
            },
        }
    }

    /// Runs one frame of length `delta`: the pending request is committed
    /// with its hooks, and the systems of the phase that is then present
    /// run. A phase requested during this frame is still pending when the
    /// frame ends.
    pub fn frame(&mut self, delta: u64)
        requires
            old(self).wf(),
        ensures
            final(self).wf(),
            final(self).machine() == machine_after_frame(old(self).machine(), old(self).slots()),
            final(self).machine().current == GameState::Solitaire ==> cards_look_right(
                final(self).slots(),
            ),
            exists|draws: Seq<u8>|
                draws.len() == draws_needed(
                    old(self).machine().committed(),
                    transitioned(old(self).machine(), old(self).slots()),
                    delta,
                ) && final(self).slots() == #[trigger] slots_after_frame(
                    old(self).machine(),
                    old(self).slots(),
                    delta,
                    draws,
                ),
    {
        self.apply_transition();
        let ghost committed = self.state;
        let ghost entered = self.world@;
        self.update(delta);
        proof {
            let draws = choose|draws: Seq<u8>|
                draws.len() == draws_needed(committed, entered, delta) && self.world@
                    == #[trigger] slots_after_update(committed, entered, delta, draws);
            assert(self.world@ == slots_after_frame(
                old(self).state,
                old(self).world@,
                delta,
                draws,
            ));
        }
    }
}

/// Whether two slots agree in everything but what is inside a body of the
/// same kind, where a timer keeps its role and a button its payload.
pub open spec fn same_kind(before: Slot, after: Slot) -> bool {
    &&& after.parent == before.parent
    &&& after.destruct_menu == before.destruct_menu
    &&& before.alive || !after.alive
    &&& match before.body {
        Body::Timer(unit) => after.body matches Body::Timer(next) && next.drives_rotation
            == unit.drives_rotation,
        Body::Button(button) => after.body matches Body::Button(next) && next.on_press
            == button.on_press,
        Body::Card(card) => after.body matches Body::Card(next) && (card.settled()
            ==> next.settled()),
        _ => after.body == before.body,
    }
}

/// Runs the hooks of a transition on the world: first the hook of the phase
/// that is left, and after it the hook of the phase that is entered.
/// Leaving the menu clears it away; entering the menu puts it up; entering
/// the table lays the table. Any transition is taken as it comes; one from
/// a phase to itself runs no hook.
pub fn run_hooks(world: &mut World, transition: StateTransition)
    requires
        old(world).wf(),
    ensures
        final(world).wf(),
        final(world)@ == hooks_run(old(world)@, transition),
{
    if transition.changes_phase() {
        match transition.exited {
            GameState::Menu => {
                clear_main_menu(world);
            },
            _ => {},
        }
        match transition.entered {
            GameState::Menu => {
                setup_main_menu(world);
            },
            GameState::Solitaire => {
                setup_solitaire(world);
            },
            GameState::Loading => {},
        }
    }
}

/// Committing the request of a coherent game and running the hooks leaves
/// the game coherent.
pub proof fn lemma_hooks_keep_coherence(machine: StateMachine, slots: Seq<Slot>)
    requires
        coherent(machine, slots),
        machine.pending is Some,
        well_formed(transitioned(machine, slots)),
    ensures
        coherent(machine.committed(), transitioned(machine, slots)),
{
    let next = machine.committed();
    match machine.current {
        GameState::Loading => {
            lemma_menu_keeps_coherence(next, slots);
        },
        GameState::Menu => {
            let left = menu_cleared(slots);
            assert(well_formed(left)) by {
                assert forall|k: int| 0 <= k < left.len() implies match (#[trigger] left[k]).parent {
                    Some(p) => p < k && (left[k].alive ==> left[p as int].alive),
                    None => true,
                } by {
                    let _ = slots[k];
                }
            }
            lemma_bodies_of_a_kind_keep_coherence(machine, slots, left);
            lemma_table_keeps_coherence(next, left);
        },
        GameState::Solitaire => {},
    }
}

/// A step that leaves every entity in place, of its kind, with its role,
/// and brings none back that was gone, keeps what the invariant says of
/// timers and buttons.
pub proof fn lemma_bodies_of_a_kind_keep_coherence(
    machine: StateMachine,
    before: Seq<Slot>,
    after: Seq<Slot>,
)
    requires
        coherent(machine, before),
        well_formed(after),
        before.len() == after.len(),
        forall|i: int| 0 <= i < before.len() ==> same_kind(before[i], #[trigger] after[i]),
    ensures
        coherent(machine, after),
{
    assert forall|i: int| 0 <= i < after.len() && is_rotation_timer(#[trigger] after[i]) implies is_rotation_timer(
        before[i],
    ) by {
        assert(same_kind(before[i], after[i]));
    }
    assert forall|i: int| 0 <= i < after.len() && (#[trigger] after[i]).alive implies (
    after[i].body matches Body::Button(button) ==> button.on_press == Some(
        GameState::Solitaire,
    )) by {
        assert(same_kind(before[i], after[i]));
        assert(before[i].alive);
    }
    assert forall|i: int| 0 <= i < after.len() && (#[trigger] after[i]).alive implies (
    after[i].body matches Body::Card(card) ==> card.settled()) by {
        assert(same_kind(before[i], after[i]));
        assert(before[i].alive);
    }
}

/// Putting up the menu keeps what the invariant says of timers, buttons
/// and requests.
pub proof fn lemma_menu_keeps_coherence(machine: StateMachine, slots: Seq<Slot>)
    requires
        coherent(machine, slots),
        well_formed(slots + main_menu(slots.len() as usize)),
    ensures
        coherent(machine, slots + main_menu(slots.len() as usize)),
{
    let after = slots + main_menu(slots.len() as usize);
    assert forall|i: int| 0 <= i < after.len() && is_rotation_timer(#[trigger] after[i]) implies i
        < slots.len() && is_rotation_timer(slots[i]) by {}
}

/// Laying the table in a world without a timer that drives the cards
/// leaves the world with one such timer, and so within the invariant of a
/// game that shows the table.
pub proof fn lemma_table_keeps_coherence(machine: StateMachine, slots: Seq<Slot>)
    requires
        well_formed(slots),
        no_rotation_timer(slots),
        buttons_start_play(slots),
        cards_settled(slots),
        request_fits(machine),
        machine.current == GameState::Solitaire,
        well_formed(slots + table(slots.len() as usize)),
    ensures
        coherent(machine, slots + table(slots.len() as usize)),
{
    let after = slots + table(slots.len() as usize);
    assert forall|i: int| 0 <= i < after.len() && is_rotation_timer(#[trigger] after[i]) implies i
        == slots.len() + 1 by {
        if i < slots.len() {
            let _ = slots[i];
        }
    }
}

/// In a world with at most one timer that drives the cards, no two timers
/// signal in the same frame.
pub proof fn lemma_one_timer_one_signal(slots: Seq<Slot>)
    requires
        at_most_one_rotation_timer(slots),
    ensures
        !many_signals(slots),
{
    if many_signals(slots) {
        let (a, b) = choose|a: int, b: int|
            0 <= a < b < slots.len() && signals(#[trigger] slots[a]) && signals(
                #[trigger] slots[b],
            );
        assert(is_rotation_timer(slots[a]) && is_rotation_timer(slots[b]));
    }
}

/// A coherent game never meets two timers that fire together: after the
/// timers have been carried through a frame of any length, at most one
/// signals, so the re-orientation of the cards can always run.
pub proof fn lemma_game_never_sees_two_signals(machine: StateMachine, slots: Seq<Slot>, delta: u64)
    requires
        coherent(machine, slots),
    ensures
        !many_signals(timers_ticked(slots, delta)),
{
    let ticked = timers_ticked(slots, delta);
    assert forall|i: int, j: int|
        0 <= i < ticked.len() && 0 <= j < ticked.len() && is_rotation_timer(#[trigger] ticked[i])
            && is_rotation_timer(#[trigger] ticked[j]) implies i == j by {
        assert(is_rotation_timer(slots[i]) && is_rotation_timer(slots[j]));
    }
    lemma_one_timer_one_signal(ticked);
}

/// Where every button asks for the table, the request that stands after
/// the buttons have answered is the one that stood before or the table.
pub proof fn lemma_buttons_ask_for_the_table(
    slots: Seq<Slot>,
    upto: int,
    pending: Option<GameState>,
)
    requires
        0 <= upto <= slots.len(),
        buttons_start_play(slots),
    ensures
        requested(slots, upto, pending) == pending || requested(slots, upto, pending) == Some(
            GameState::Solitaire,
        ),
    decreases upto,
{
    if upto > 0 {
        lemma_buttons_ask_for_the_table(slots, upto - 1, pending);
        let _ = slots[upto - 1];
    }
}

/// If a button among the first `upto` entities asks for a phase, a request
/// stands after they have answered.
pub proof fn lemma_a_request_stands(
    slots: Seq<Slot>,
    upto: int,
    pending: Option<GameState>,
    button: int,
)
    requires
        0 <= button < upto <= slots.len(),
        slot_request(slots[button]) is Some,
    ensures
        requested(slots, upto, pending) is Some,
    decreases upto,
{
    if upto - 1 > button {
        lemma_a_request_stands(slots, upto - 1, pending, button);
    }
}

/// Whether an entity leaves with the menu depends on the tags and on what
/// hangs under what, and on nothing else.
pub proof fn lemma_tags_decide_who_leaves(a: Seq<Slot>, b: Seq<Slot>, i: int)
    requires
        a.len() == b.len(),
        forall|j: int|
            0 <= j < a.len() ==> (#[trigger] a[j]).parent == b[j].parent && a[j].destruct_menu
                == b[j].destruct_menu,
    ensures
        under_tagged(a, i) == under_tagged(b, i),
    decreases i,
{
    if 0 <= i < a.len() {
        assert(a[i].parent == b[i].parent && a[i].destruct_menu == b[i].destruct_menu);
        match a[i].parent {
            Some(p) => {
                if p < i {
                    lemma_tags_decide_who_leaves(a, b, p as int);
                }
            },
            None => {},
        }
    }
}

/// Pressing the play button starts the game at the next commit.
///
/// Take a game that shows the menu, with nothing requested, in which a
/// button that exists has just been pressed. The frame of the press leaves
/// the game in the menu with the table requested. The frame after it
/// commits the request: the game shows the table and nothing is pending;
/// the menu was cleared away before the table was laid; every entity that
/// was tagged to leave with the menu, and everything that hung under one,
/// is gone; and the eleven entities of the table exist.
pub proof fn lemma_play_button_starts_the_game(
    machine: StateMachine,
    slots: Seq<Slot>,
    button: int,
    first: u64,
    first_draws: Seq<u8>,
    second: u64,
    second_draws: Seq<u8>,
)
    requires
        coherent(machine, slots),
        machine == (StateMachine { current: GameState::Menu, pending: None }),
        0 <= button < slots.len(),
        slots[button].alive,
        slots[button].body matches Body::Button(pressed) && pressed.interaction_changed
            && pressed.interaction == Interaction::Pressed,
    ensures
        ({
            let machine1 = machine_after_frame(machine, slots);
            let slots1 = slots_after_frame(machine, slots, first, first_draws);
            let machine2 = machine_after_frame(machine1, slots1);
            let slots2 = slots_after_frame(machine1, slots1, second, second_draws);
            &&& machine1 == (StateMachine {
                current: GameState::Menu,
                pending: Some(GameState::Solitaire),
            })
            &&& slots1 == buttons_answered(slots)
            &&& machine2 == (StateMachine { current: GameState::Solitaire, pending: None })
            &&& transitioned(machine1, slots1) == menu_cleared(slots1) + table(
                slots1.len() as usize,
            )
            &&& slots2.len() == slots.len() + 11
            &&& forall|i: int|
                0 <= i < slots.len() && under_tagged(slots, i) ==> !(#[trigger] slots2[i]).alive
            &&& forall|i: int|
                0 <= i < slots.len() && !under_tagged(slots, i) ==> (#[trigger] slots2[i]).alive
                    == slots[i].alive
            &&& forall|j: int| slots.len() <= j < slots.len() + 11 ==> (#[trigger] slots2[j]).alive
        }),
{
    let machine1 = machine_after_frame(machine, slots);
    let slots1 = slots_after_frame(machine, slots, first, first_draws);
    lemma_a_request_stands(slots, slots.len() as int, None, button);
    lemma_buttons_ask_for_the_table(slots, slots.len() as int, None);
    assert(machine1.pending == Some(GameState::Solitaire));
    assert(slots1 == buttons_answered(slots));
    let entered = transitioned(machine1, slots1);
    assert(entered == menu_cleared(slots1) + table(slots1.len() as usize));
    let ticked = timers_ticked(entered, second);
    let turned = rotations_after_signal(ticked, second_draws);
    let slots2 = slots_after_frame(machine1, slots1, second, second_draws);
    assert(slots2 == rotations_shown(turned));
    assert forall|i: int| 0 <= i < slots2.len() implies (#[trigger] slots2[i]).alive
        == entered[i].alive by {
        assert(ticked[i].alive == entered[i].alive);
        assert(turned[i].alive == ticked[i].alive);
    }
    assert forall|i: int| 0 <= i < slots.len() implies under_tagged(slots1, i) == under_tagged(
        slots,
        i,
    ) by {
        lemma_tags_decide_who_leaves(slots1, slots, i);
    }
}

} // verus!
