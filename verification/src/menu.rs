//! The menu: what is put on the screen when it is entered, how its button
//! answers the pointer, and what is taken away when it is left.

use vstd::prelude::*;
use crate::button::{Button, ButtonColors, Interaction, Length, Node};
use crate::state::{GameState, StateMachine};
use crate::label::{Caption, Label};
use crate::world::{
    descends, fresh, lemma_descends_by_parents, lemma_descends_is_transitive,
    lemma_nothing_exists_under_the_gone, lemma_tagged_go_with_descendants, removed, well_formed,
    without_tagged, Body, Camera, Slot, World,
};

verus! {

/// The entities of the menu.
#[derive(Clone, Copy, Debug, PartialEq, Eq, Structural)]
pub struct MainMenu {
    pub camera: usize,
    pub root: usize,
    pub button: usize,
    pub label: usize,
}

/// The camera of the menu: it does not smooth edges.
pub open spec fn menu_camera() -> Camera {
    Camera { antialiased: false }
}

/// The box that holds the menu: it fills the screen and centres what it
/// holds in a column.
pub open spec fn menu_root() -> Node {
    Node { width: Length::Percent(100), height: Length::Percent(100), column: true, centered: true }
}

/// The words on the button, in the palette's text colour.
pub open spec fn play_label() -> Label {
    Label {
        caption: Caption::PlaySolitaire,
        font_size: 15,
        color: ButtonColors::standard().text,
        centered: false,
        layer: 0,
    }
}

/// The slots of the menu when it is set up in a world that holds `base`
/// entities: a camera and the box, both tagged to leave with the menu; the
/// button under the box; the label under the button.
pub open spec fn main_menu(base: usize) -> Seq<Slot> {
    seq![
        fresh(None, Body::Camera(menu_camera()), true),
        fresh(None, Body::Menu(menu_root()), true),
        fresh(Some((base + 1) as usize), Body::Button(Button::play_solitaire()), false),
        fresh(Some((base + 2) as usize), Body::Label(play_label()), false),
    ]
}

/// Puts the menu into the world: a camera, and a box that fills the screen
/// and holds the one button, which carries the words "Play Solitaire" and
/// asks for the card table when pressed.
pub fn setup_main_menu(world: &mut World) -> (menu: MainMenu)
    requires
        old(world).wf(),
    ensures
        final(world).wf(),
        final(world)@ == old(world)@ + main_menu(old(world)@.len() as usize),
        menu.camera == old(world)@.len(),
        menu.root == old(world)@.len() + 1,
        menu.button == old(world)@.len() + 2,
        menu.label == old(world)@.len() + 3,
{
    let camera = world.spawn(Body::Camera(Camera { antialiased: false }), true);
    let colors = ButtonColors::default();
    let root = world.spawn(
        Body::Menu(
            Node {
                width: Length::Percent(100),
                height: Length::Percent(100),
                column: true,
                centered: true,
            },
        ),
        true,
    );
    let button = world.spawn_child(root, Body::Button(Button::new_play_solitaire()), false);
    let label = world.spawn_child(
        button,
        Body::Label(
            Label {
                caption: Caption::PlaySolitaire,
                font_size: 15,
                color: colors.text,
                centered: false,
                layer: 0,
            },
        ),
        false,
    );
    assert(world@ =~= old(world)@ + main_menu(old(world)@.len() as usize));
    MainMenu { camera, root, button, label }
}

/// The slots after the menu has been cleared away: every entity tagged to
/// leave with the menu is gone, and so is all that hung under one.
pub open spec fn menu_cleared(slots: Seq<Slot>) -> Seq<Slot> {
    without_tagged(slots)
}

/// Whether the entity `i` descends from a tagged entity among the first
/// `upto`.
pub open spec fn under_tagged_before(slots: Seq<Slot>, i: int, upto: int) -> bool {
    exists|root: int|
        0 <= root < upto && root < slots.len() && slots[root].destruct_menu && #[trigger] descends(
            slots,
            i,
            root,
        )
}

/// The slot `i` after the tagged entities among the first `upto` have been
/// taken out with all that hangs under them.
pub open spec fn swept_slot(slots: Seq<Slot>, i: int, upto: int) -> Slot {
    if under_tagged_before(slots, i, upto) {
        removed(slots[i])
    } else {
        slots[i]
    }
}

/// Clears the menu away: every tagged entity is taken out of the world
/// together with everything that hangs under it. Nothing else is touched.
pub fn clear_main_menu(world: &mut World)
    requires
        old(world).wf(),
    ensures
        final(world).wf(),
        final(world)@ == menu_cleared(old(world)@),
{
    let n = world.len();
    let mut i: usize = 0;
    while i < n
        invariant
            n == world@.len(),
            n == old(world)@.len(),
            i <= n,
            world.wf(),
            well_formed(old(world)@),
            forall|j: int| 0 <= j < n ==> #[trigger] world@[j] == swept_slot(old(world)@, j, i as int),
        decreases n - i,
    {
        let ghost before = old(world)@;
        let ghost now = world@;
        let slot = world.slot(i);
        if slot.alive && slot.destruct_menu {
            world.despawn_recursive(i);
        }
        proof {
            assert(now[i as int] == swept_slot(before, i as int, i as int));
            assert forall|j: int| 0 <= j < n implies #[trigger] world@[j] == swept_slot(
                before,
                j,
                i + 1,
            ) by {
                assert(now[j] == swept_slot(before, j, i as int));
                assert forall|k: int| 0 <= k < n implies (#[trigger] now[k]).parent
                    == before[k].parent by {
                    assert(now[k] == swept_slot(before, k, i as int));
                }
                lemma_descends_by_parents(now, before, j, i as int);
                if before[i as int].destruct_menu && descends(before, j, i as int) {
                    assert(under_tagged_before(before, j, i + 1));
                    if !slot.alive {
                        if before[i as int].alive {
                            let root = choose|root: int|
                                0 <= root < i && root < before.len() && before[root].destruct_menu
                                    && #[trigger] descends(before, i as int, root);
                            lemma_descends_is_transitive(before, j, i as int, root);
                            assert(under_tagged_before(before, j, i as int));
                        } else {
                            lemma_nothing_exists_under_the_gone(before, j, i as int);
                        }
                    }
                } else if under_tagged_before(before, j, i + 1) {
                    let root = choose|root: int|
                        0 <= root < i + 1 && root < before.len() && before[root].destruct_menu
                            && #[trigger] descends(before, j, root);
                    assert(root != i);
                    assert(under_tagged_before(before, j, i as int));
                }
            }
        }
        i += 1;
    }
    proof {
        let before = old(world)@;
        assert forall|j: int| 0 <= j < n implies #[trigger] world@[j] == menu_cleared(before)[j] by {
            lemma_tagged_go_with_descendants(before, j);
            assert(world@[j] == swept_slot(before, j, n as int));
        }
        assert(world@ =~= menu_cleared(before));
    }
}

/// The slot after the pointer has done `interaction` to it: a button that
/// exists records it, anything else stays as it is.
pub open spec fn slot_pointed_at(slot: Slot, interaction: Interaction) -> Slot {
    if slot.alive {
        match slot.body {
            Body::Button(button) => Slot {
                body: Body::Button(button.pointed_at(interaction)),
                ..slot
            },
            _ => slot,
        }
    } else {
        slot
    }
}

/// The slots after the pointer has done `interaction` to `entity`.
pub open spec fn pointed_at(slots: Seq<Slot>, entity: int, interaction: Interaction) -> Seq<Slot> {
    if 0 <= entity < slots.len() {
        slots.update(entity, slot_pointed_at(slots[entity], interaction))
    } else {
        slots
    }
}

/// Records what the pointer does to `entity`. Only a button that exists
/// takes note; the button answers when [`button_system`] next runs.
pub fn point_at(world: &mut World, entity: usize, interaction: Interaction)
    requires
        old(world).wf(),
    ensures
        final(world).wf(),
        final(world)@ == pointed_at(old(world)@, entity as int, interaction),
{
    match world.get(entity) {
        Some(slot) => {
            match slot.body {
                Body::Button(button) => {
                    world.insert(entity, Body::Button(button.point_at(interaction)));
                },
                _ => {
                    assert(world@ =~= pointed_at(old(world)@, entity as int, interaction));
                },
            }
        },
        None => {},
    }
}

/// The slot after the button system has passed over it: a button that
/// exists has answered, anything else stays as it is.
pub open spec fn slot_answered(slot: Slot) -> Slot {
    if slot.alive {
        match slot.body {
            Body::Button(button) => Slot { body: Body::Button(button.answered()), ..slot },
            _ => slot,
        }
    } else {
        slot
    }
}

/// The phase that the slot asks for when the button system passes over it.
pub open spec fn slot_request(slot: Slot) -> Option<GameState> {
    if slot.alive {
        match slot.body {
            Body::Button(button) => button.request(),
            _ => None,
        }
    } else {
        None
    }
}

/// The slots after all buttons have answered.
pub open spec fn buttons_answered(slots: Seq<Slot>) -> Seq<Slot> {
    Seq::new(slots.len(), |i: int| slot_answered(slots[i]))
}

/// The request that stands after the first `upto` slots have been passed
/// over, when `pending` stood before: that of the last slot among them
/// that asks, or `pending` if none asks.
pub open spec fn requested(slots: Seq<Slot>, upto: int, pending: Option<GameState>) -> Option<
    GameState,
>
    decreases upto,
{
    if upto <= 0 {
        pending
    } else {
        match slot_request(slots[upto - 1]) {
            Some(next) => Some(next),
            None => requested(slots, upto - 1, pending),
        }
    }
}

/// Lets every button whose interaction has changed answer it: the button
/// takes the colour that belongs to the interaction, and a pressed button
/// with a payload asks the state machine for the payload's phase. Buttons
/// are passed over in the order of their creation, so of several requests
/// the last stands. The present phase is not touched.
pub fn button_system(world: &mut World, state: &mut StateMachine)
    requires
        old(world).wf(),
    ensures
        final(world).wf(),
        final(world)@ == buttons_answered(old(world)@),
        final(state).current == old(state).current,
        final(state).pending == requested(
            old(world)@,
            old(world)@.len() as int,
            old(state).pending,
        ),
{
    let n = world.len();
    let mut i: usize = 0;
    while i < n
        invariant
            n == world@.len(),
            n == old(world)@.len(),
            i <= n,
            well_formed(old(world)@),
            world.wf(),
            state.current == old(state).current,
            state.pending == requested(old(world)@, i as int, old(state).pending),
            forall|j: int| 0 <= j < i ==> #[trigger] world@[j] == slot_answered(old(world)@[j]),
            forall|j: int| i <= j < n ==> #[trigger] world@[j] == old(world)@[j],
        decreases n - i,
    {
        let slot = world.slot(i);
        assert(slot == old(world)@[i as int]);
        if slot.alive {
            match slot.body {
                Body::Button(button) => {
                    let (answered, request) = button.answer();
                    world.insert(i, Body::Button(answered));
                    match request {
                        Some(next) => {
                            state.set(next);
                        },
                        None => {},
                    }
                },
                _ => {},
            }
        }
        i += 1;
    }
    assert(world@ =~= buttons_answered(old(world)@));
}

/// If no button asks for a phase, the request that stood stays.
pub proof fn lemma_quiet_buttons_leave_request(
    slots: Seq<Slot>,
    upto: int,
    pending: Option<GameState>,
)
    requires
        0 <= upto <= slots.len(),
        forall|j: int| 0 <= j < upto ==> slot_request(#[trigger] slots[j]) is None,
    ensures
        requested(slots, upto, pending) == pending,
    decreases upto,
{
    if upto > 0 {
        lemma_quiet_buttons_leave_request(slots, upto - 1, pending);
    }
}

/// If a button asks for a phase and no button after it asks, that phase is
/// requested, whatever stood before.
pub proof fn lemma_last_asking_button_decides(
    slots: Seq<Slot>,
    upto: int,
    pending: Option<GameState>,
    button: int,
)
    requires
        0 <= button < upto <= slots.len(),
        slot_request(slots[button]) is Some,
        forall|j: int| button < j < upto ==> slot_request(#[trigger] slots[j]) is None,
    ensures
        requested(slots, upto, pending) == slot_request(slots[button]),
    decreases upto,
{
    if upto - 1 > button {
        lemma_last_asking_button_decides(slots, upto - 1, pending, button);
    }
}

} // verus!
