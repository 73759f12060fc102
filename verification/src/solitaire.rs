//! The card table: what is laid out when play begins, the timer that runs
//! while it lasts, the re-orientation of the cards whenever the timer
//! fires, the step that makes the cards look the way they point, and
//! dragging.

use vstd::prelude::*;
use crate::card::{Card, DECK_SIZE};
use crate::color::Color;
use crate::rotation::{random_byte, Rotation};
use crate::timer::{JustFinished, TimerUnit};
use crate::label::{Caption, Label};
use crate::world::{fresh, well_formed, Body, Camera, Slot, World};

verus! {

/// The entities of the card table.
#[derive(Clone, Copy, Debug, PartialEq, Eq, Structural)]
pub struct Table {
    pub camera: usize,
    pub timer: usize,
    pub deck: usize,
}

impl Table {
    /// The `number`-th card of the table's deck.
    pub open spec fn card_of(self, number: u8) -> int {
        self.deck + 1 + 2 * number
    }

    /// The label of the `number`-th card.
    pub open spec fn label_of(self, number: u8) -> int {
        self.deck + 2 + 2 * number
    }

    /// The entity of the `number`-th card of the deck, counted from zero.
    pub fn card(&self, number: u8) -> (entity: usize)
        requires
            number < DECK_SIZE,
            self.deck + 2 * DECK_SIZE <= usize::MAX,
        ensures
            entity == self.card_of(number),
    {
        self.deck + 1 + 2 * (number as usize)
    }

    /// The entity of the label of the `number`-th card.
    pub fn label(&self, number: u8) -> (entity: usize)
        requires
            number < DECK_SIZE,
            self.deck + 2 * DECK_SIZE <= usize::MAX,
        ensures
            entity == self.label_of(number),
    {
        self.deck + 2 + 2 * (number as usize)
    }
}

/// The words on the `number`-th card: white, twenty pixels high, centred,
/// one layer in front of the card.
pub open spec fn card_label(number: u8) -> Label {
    Label {
        caption: Caption::Card(number),
        font_size: 20,
        color: Color { red: 100, green: 100, blue: 100 },
        centered: true,
        layer: 1,
    }
}

/// The `j`-th slot of the card table when it is set up in a world that
/// holds `base` entities: a camera, the timer of one second, the deck, and
/// under the deck the cards in turn, each on a layer of its own and each
/// followed by the label that hangs under it.
pub open spec fn table_slot(base: usize, j: int) -> Slot {
    if j == 0 {
        fresh(None, Body::Camera(Camera { antialiased: true }), false)
    } else if j == 1 {
        fresh(None, Body::Timer(TimerUnit::rotation_timer()), false)
    } else if j == 2 {
        fresh(None, Body::Deck, false)
    } else if (j - 3) % 2 == 0 {
        fresh(Some((base + 2) as usize), Body::Card(Card::laid_out(((j - 3) / 2) as i32)), false)
    } else {
        fresh(
            Some((base + j - 1) as usize),
            Body::Label(card_label(((j - 3) / 2) as u8)),
            false,
        )
    }
}

/// The first `count` slots of the card table.
pub open spec fn table_slots(base: usize, count: int) -> Seq<Slot> {
    Seq::new(count as nat, |j: int| table_slot(base, j))
}

/// The slots of the whole card table: three entities and, for each card of
/// the deck, the card and its label.
pub open spec fn table(base: usize) -> Seq<Slot> {
    table_slots(base, 3 + 2 * DECK_SIZE)
}

/// Lays the table: a camera, the timer that drives the cards, and a deck of
/// four cards. Card `i` lies at the origin on layer `i`, points up, and
/// carries a label with its number.
pub fn setup_solitaire(world: &mut World) -> (laid: Table)
    requires
        old(world).wf(),
    ensures
        final(world).wf(),
        final(world)@ == old(world)@ + table(old(world)@.len() as usize),
        laid.camera == old(world)@.len(),
        laid.timer == old(world)@.len() + 1,
        laid.deck == old(world)@.len() + 2,
{
    let ghost base = old(world)@.len() as usize;
    let camera = world.spawn(Body::Camera(Camera { antialiased: true }), false);
    let timer = world.spawn(Body::Timer(TimerUnit::new_rotation_timer()), false);
    let deck = world.spawn(Body::Deck, false);
    assert(world@ =~= old(world)@ + table_slots(base, 3));
    let mut number: u8 = 0;
    while number < DECK_SIZE
        invariant
            number <= DECK_SIZE,
            world.wf(),
            base == old(world)@.len(),
            deck == base + 2,
            world@ == old(world)@ + table_slots(base, 3 + 2 * number),
        decreases DECK_SIZE - number,
    {
        let ghost before = world@;
        assert(before[deck as int] == table_slot(base, 2));
        let card = world.spawn_child(deck, Body::Card(Card::new(number as i32)), false);
        let label = world.spawn_child(
            card,
            Body::Label(
                Label {
                    caption: Caption::Card(number),
                    font_size: 20,
                    color: Color::srgb(100, 100, 100),
                    centered: true,
                    layer: 1,
                },
            ),
            false,
        );
        assert(world@ =~= old(world)@ + table_slots(base, 3 + 2 * (number + 1)));
        number += 1;
    }
    Table { camera, timer, deck }
}

/// The slot one frame of length `delta` later, as far as timers go: a
/// timer that exists is carried through the frame, anything else stays as
/// it is.
pub open spec fn slot_ticked(slot: Slot, delta: u64) -> Slot {
    if slot.alive {
        match slot.body {
            Body::Timer(unit) => Slot { body: Body::Timer(unit.stepped(delta)), ..slot },
            _ => slot,
        }
    } else {
        slot
    }
}

/// The slots after every timer has been carried through a frame of length
/// `delta`.
pub open spec fn timers_ticked(slots: Seq<Slot>, delta: u64) -> Seq<Slot> {
    Seq::new(slots.len(), |i: int| slot_ticked(slots[i], delta))
}

/// Carries every timer through one frame of length `delta`: the marker of
/// the frame before is taken off, a started timer is reset and set
/// running, a running timer is advanced, a paused one is passed by, and a
/// timer that completes an interval in this frame gets a marker with the
/// number of intervals completed.
pub fn periodic_timer_system(world: &mut World, delta: u64)
    requires
        old(world).wf(),
    ensures
        final(world).wf(),
        final(world)@ == timers_ticked(old(world)@, delta),
{
    let n = world.len();
    let mut i: usize = 0;
    while i < n
        invariant
            n == world@.len(),
            n == old(world)@.len(),
            i <= n,
            world.wf(),
            forall|j: int| 0 <= j < i ==> #[trigger] world@[j] == slot_ticked(old(world)@[j], delta),
            forall|j: int| i <= j < n ==> #[trigger] world@[j] == old(world)@[j],
        decreases n - i,
    {
        let slot = world.slot(i);
        if slot.alive {
            match slot.body {
                Body::Timer(unit) => {
                    world.insert(i, Body::Timer(unit.step(delta)));
                },
                _ => {},
            }
        }
        i += 1;
    }
    assert(world@ =~= timers_ticked(old(world)@, delta));
}

/// Why no single entity answered a query.
#[derive(Clone, Copy, Debug, PartialEq, Eq, Structural)]
pub enum QuerySingleError {
    /// Nothing matched.
    NoEntities,
    /// More than one entity matched.
    MultipleEntities,
}

/// Whether the slot holds a timer that exists, drives the cards and has
/// just completed an interval.
pub open spec fn signals(slot: Slot) -> bool {
    &&& slot.alive
    &&& slot.body matches Body::Timer(unit)
    &&& unit.drives_rotation
    &&& unit.just_finished is Some
}

/// The marker that a signalling slot carries.
pub open spec fn marker(slot: Slot) -> JustFinished
    recommends
        signals(slot),
{
    slot.body->Timer_0.just_finished->Some_0
}

/// Whether no timer signals.
pub open spec fn no_signal(slots: Seq<Slot>) -> bool {
    forall|i: int| 0 <= i < slots.len() ==> !signals(#[trigger] slots[i])
}

/// Whether the timer `i` signals and is the only one to do so.
pub open spec fn lone_signal(slots: Seq<Slot>, i: int) -> bool {
    &&& 0 <= i < slots.len()
    &&& signals(slots[i])
    &&& forall|j: int| 0 <= j < slots.len() && signals(#[trigger] slots[j]) ==> j == i
}

/// Whether two different timers signal.
pub open spec fn many_signals(slots: Seq<Slot>) -> bool {
    exists|i: int, j: int|
        0 <= i < j < slots.len() && signals(#[trigger] slots[i]) && signals(#[trigger] slots[j])
}

/// Looks for the one timer that drives the cards and has just completed an
/// interval. Exactly one of three things holds: no timer signals, and the
/// answer is `NoEntities`; one timer signals alone, and the answer is its
/// marker; or two or more signal, and the answer is `MultipleEntities`.
pub fn finished_rotation_timer(world: &World) -> (found: Result<JustFinished, QuerySingleError>)
    ensures
        found == Err::<JustFinished, QuerySingleError>(QuerySingleError::NoEntities) <==> no_signal(
            world@,
        ),
        found == Err::<JustFinished, QuerySingleError>(QuerySingleError::MultipleEntities)
            <==> many_signals(world@),
        found matches Ok(m) ==> exists|i: int| #[trigger] lone_signal(world@, i) && m == marker(world@[i]),
        found is Ok <==> exists|i: int| #[trigger] lone_signal(world@, i),
{
    let n = world.len();
    let mut first: Option<usize> = None;
    let mut i: usize = 0;
    while i < n
        invariant
            n == world@.len(),
            i <= n,
            first matches Some(f) ==> f < i && signals(world@[f as int]),
            first matches Some(f) ==> forall|j: int|
                0 <= j < i && signals(#[trigger] world@[j]) ==> j == f,
            first is None ==> forall|j: int| 0 <= j < i ==> !signals(#[trigger] world@[j]),
        decreases n - i,
    {
        let slot = world.slot(i);
        let mut signalling = false;
        if slot.alive {
            match slot.body {
                Body::Timer(unit) => {
                    signalling = unit.drives_rotation && unit.just_finished.is_some();
                },
                _ => {},
            }
        }
        assert(signalling == signals(world@[i as int]));
        if signalling {
            match first {
                Some(f) => {
                    assert(signals(world@[f as int]) && signals(world@[i as int]));
                    proof {
                        lemma_signals_exclude(world@, f as int, i as int);
                    }
                    return Err(QuerySingleError::MultipleEntities);
                },
                None => {
                    first = Some(i);
                },
            }
        }
        i += 1;
    }
    match first {
        Some(f) => {
            let slot = world.slot(f);
            match slot.body {
                Body::Timer(unit) => {
                    match unit.just_finished {
                        Some(m) => {
                            assert(lone_signal(world@, f as int));
                            proof {
                                lemma_lone_signal_excludes(world@, f as int);
                            }
                            Ok(m)
                        },
                        None => Err(QuerySingleError::NoEntities),
                    }
                },
                _ => Err(QuerySingleError::NoEntities),
            }
        },
        None => {
            proof {
                lemma_no_signal_excludes(world@);
            }
            Err(QuerySingleError::NoEntities)
        },
    }
}

/// Two timers that signal rule out that none or only one does.
pub proof fn lemma_signals_exclude(slots: Seq<Slot>, a: int, b: int)
    requires
        0 <= a < b < slots.len(),
        signals(slots[a]),
        signals(slots[b]),
    ensures
        many_signals(slots),
        !no_signal(slots),
        forall|i: int| !lone_signal(slots, i),
{
    assert forall|i: int| !lone_signal(slots, i) by {
        if lone_signal(slots, i) {
            assert(signals(slots[a]) ==> a == i);
            assert(signals(slots[b]) ==> b == i);
        }
    }
}

/// A timer that signals alone rules out that none or several do.
pub proof fn lemma_lone_signal_excludes(slots: Seq<Slot>, i: int)
    requires
        lone_signal(slots, i),
    ensures
        !no_signal(slots),
        !many_signals(slots),
{
    if many_signals(slots) {
        let (a, b) = choose|a: int, b: int|
            0 <= a < b < slots.len() && signals(#[trigger] slots[a]) && signals(
                #[trigger] slots[b],
            );
        assert(signals(slots[a]) ==> a == i);
        assert(signals(slots[b]) ==> b == i);
    }
}

/// If no timer signals, none signals alone and no two signal.
pub proof fn lemma_no_signal_excludes(slots: Seq<Slot>)
    requires
        no_signal(slots),
    ensures
        !many_signals(slots),
        forall|i: int| !lone_signal(slots, i),
{
}

/// Whether the entity `i` is a card that exists and hangs directly under a
/// deck that exists.
pub open spec fn is_deck_card(slots: Seq<Slot>, i: int) -> bool {
    &&& 0 <= i < slots.len()
    &&& slots[i].alive
    &&& slots[i].body is Card
    &&& slots[i].parent matches Some(p)
    &&& p < slots.len()
    &&& slots[p as int].alive
    &&& slots[p as int].body is Deck
}

/// The number of deck cards among the first `upto` entities.
pub open spec fn deck_cards_before(slots: Seq<Slot>, upto: int) -> nat
    decreases upto,
{
    if upto <= 0 {
        0
    } else if is_deck_card(slots, upto - 1) {
        deck_cards_before(slots, upto - 1) + 1
    } else {
        deck_cards_before(slots, upto - 1)
    }
}

/// The number of deck cards in the world.
pub open spec fn deck_card_count(slots: Seq<Slot>) -> nat {
    deck_cards_before(slots, slots.len() as int)
}

/// The slot with the orientation of its card replaced.
pub open spec fn slot_rotated_to(slot: Slot, rotation: Rotation) -> Slot {
    match slot.body {
        Body::Card(card) => Slot { body: Body::Card(card.rotated_to(rotation)), ..slot },
        _ => slot,
    }
}

/// The slots after the deck cards have been given new orientations from
/// `draws`: the cards take the draws in turn, one each, in the order of
/// their creation. Anything that is not a deck card stays as it is.
pub open spec fn rotations_assigned(slots: Seq<Slot>, draws: Seq<u8>) -> Seq<Slot> {
    Seq::new(
        slots.len(),
        |i: int|
            if is_deck_card(slots, i) {
                slot_rotated_to(
                    slots[i],
                    Rotation::of_draw(draws[deck_cards_before(slots, i) as int]),
                )
            } else {
                slots[i]
            },
    )
}

/// The count of deck cards grows with the range counted, and never
/// exceeds the length of the range.
pub proof fn lemma_deck_cards_grow(slots: Seq<Slot>, lower: int, upper: int)
    requires
        0 <= lower <= upper,
    ensures
        deck_cards_before(slots, lower) <= deck_cards_before(slots, upper),
        deck_cards_before(slots, upper) <= upper,
    decreases upper,
{
    if upper > 0 {
        if lower < upper {
            lemma_deck_cards_grow(slots, lower, upper - 1);
        } else {
            lemma_deck_cards_grow(slots, lower - 1, upper - 1);
        }
    }
}

/// Counts the deck cards of the world: the number of draws that
/// [`assign_rotations`] asks for.
pub fn count_deck_cards(world: &World) -> (count: usize)
    requires
        world.wf(),
    ensures
        count == deck_card_count(world@),
{
    let n = world.len();
    let mut count: usize = 0;
    let mut i: usize = 0;
    while i < n
        invariant
            n == world@.len(),
            i <= n,
            world.wf(),
            count == deck_cards_before(world@, i as int),
            count <= i,
        decreases n - i,
    {
        if on_deck(world, i) {
            count += 1;
        }
        i += 1;
    }
    count
}

/// Says whether the entity `i` is a card that hangs under a deck.
pub fn on_deck(world: &World, i: usize) -> (found: bool)
    requires
        world.wf(),
        i < world@.len(),
    ensures
        found == is_deck_card(world@, i as int),
{
    let slot = world.slot(i);
    if !slot.alive {
        return false;
    }
    match slot.body {
        Body::Card(_) => {},
        _ => {
            return false;
        },
    }
    match slot.parent {
        Some(p) => {
            let parent = world.slot(p);
            match parent.body {
                Body::Deck => parent.alive,
                _ => false,
            }
        },
        None => false,
    }
}

/// Gives every deck card a new orientation, the `k`-th deck card in order
/// of creation the one that `draws[k]` stands for. Each card's orientation
/// is replaced, not compared: the card counts as changed even where the
/// new orientation equals the old.
pub fn assign_rotations(world: &mut World, draws: &Vec<u8>)
    requires
        old(world).wf(),
        draws@.len() == deck_card_count(old(world)@),
    ensures
        final(world).wf(),
        final(world)@ == rotations_assigned(old(world)@, draws@),
{
    let n = world.len();
    let mut next: usize = 0;
    let mut i: usize = 0;
    while i < n
        invariant
            n == world@.len(),
            n == old(world)@.len(),
            i <= n,
            world.wf(),
            well_formed(old(world)@),
            draws@.len() == deck_card_count(old(world)@),
            next == deck_cards_before(old(world)@, i as int),
            forall|j: int|
                0 <= j < i ==> #[trigger] world@[j] == rotations_assigned(old(world)@, draws@)[j],
            forall|j: int| i <= j < n ==> #[trigger] world@[j] == old(world)@[j],
        decreases n - i,
    {
        let ghost before = old(world)@;
        let slot = world.slot(i);
        assert(slot == before[i as int]);
        proof {
            match slot.parent {
                Some(p) => {
                    assert(p < i);
                    assert(world@[p as int] == rotations_assigned(before, draws@)[p as int]);
                },
                None => {},
            }
        }
        let found = on_deck(world, i);
        assert(found == is_deck_card(before, i as int));
        if found {
            proof {
                lemma_deck_cards_grow(before, i + 1, n as int);
            }
            match slot.body {
                Body::Card(card) => {
                    let rotation = Rotation::from_draw(draws[next]);
                    world.insert(i, Body::Card(card.rotate_to(rotation)));
                    next += 1;
                },
                _ => {},
            }
        }
        i += 1;
    }
    assert(world@ =~= rotations_assigned(old(world)@, draws@));
}

/// What the timer's signal does to the cards: a lone signal gives the deck
/// cards the orientations that `draws` stand for; no signal leaves them.
pub open spec fn rotations_after_signal(slots: Seq<Slot>, draws: Seq<u8>) -> Seq<Slot> {
    if exists|i: int| #[trigger] lone_signal(slots, i) {
        rotations_assigned(slots, draws)
    } else {
        slots
    }
}

/// Re-orients the cards when the timer has fired. If no timer signals,
/// nothing happens. If one timer signals, one byte is drawn for every deck
/// card and the cards are given the orientations that the bytes stand for.
/// More than one signalling timer is a broken set-up that the caller must
/// rule out.
pub fn random_rotation_system(world: &mut World)
    requires
        old(world).wf(),
        !many_signals(old(world)@),
    ensures
        final(world).wf(),
        exists|draws: Seq<u8>|
            draws.len() == deck_card_count(old(world)@) && final(world)@
                == #[trigger] rotations_after_signal(old(world)@, draws),
{
    match finished_rotation_timer(world) {
        Ok(_) => {
            let count = count_deck_cards(world);
            let mut draws: Vec<u8> = Vec::new();
            while draws.len() < count
                invariant
                    draws@.len() <= count,
                decreases count - draws@.len(),
            {
                draws.push(random_byte());
            }
            assign_rotations(world, &draws);
            assert(world@ == rotations_after_signal(old(world)@, draws@));
        },
        Err(error) => {
            let ghost draws = Seq::new(deck_card_count(world@), |k: int| 0u8);
            proof {
                assert(error == QuerySingleError::NoEntities);
                lemma_no_signal_excludes(world@);
            }
            assert(world@ == rotations_after_signal(old(world)@, draws));
        },
    }
}

/// Every deck card is re-oriented by a draw of its own, and nothing else
/// is touched: after the assignment a deck card is the card it was, with
/// the orientation of its draw and counted as changed, whatever its
/// orientation was before; any other entity is as it was.
pub proof fn lemma_each_card_gets_its_draw(slots: Seq<Slot>, draws: Seq<u8>, i: int)
    requires
        0 <= i < slots.len(),
    ensures
        is_deck_card(slots, i) ==> ({
            let card = slots[i].body->Card_0;
            let draw = draws[deck_cards_before(slots, i) as int];
            let after = rotations_assigned(slots, draws)[i];
            &&& after.body is Card
            &&& after.body->Card_0.rotation == Rotation::of_draw(draw)
            &&& after.body->Card_0.rotation_changed
            &&& after == Slot { body: Body::Card(card.rotated_to(Rotation::of_draw(draw))), ..slots[i] }
        }),
        !is_deck_card(slots, i) ==> rotations_assigned(slots, draws)[i] == slots[i],
{
}

/// No two deck cards share a draw: a card created later takes a later
/// draw, and every card's draw is one of those handed in.
pub proof fn lemma_draws_are_not_shared(slots: Seq<Slot>, i: int, j: int)
    requires
        0 <= i < j < slots.len(),
        is_deck_card(slots, i),
        is_deck_card(slots, j),
    ensures
        deck_cards_before(slots, i) < deck_cards_before(slots, j),
        deck_cards_before(slots, j) < deck_card_count(slots),
{
    lemma_deck_cards_grow(slots, i + 1, j);
    lemma_deck_cards_grow(slots, j + 1, slots.len() as int);
}

/// A card's new orientation depends on no draw but its own: two lists of
/// draws that agree on the card's draw give the card the same orientation.
pub proof fn lemma_cards_are_independent(slots: Seq<Slot>, a: Seq<u8>, b: Seq<u8>, i: int)
    requires
        0 <= i < slots.len(),
        is_deck_card(slots, i),
        a[deck_cards_before(slots, i) as int] == b[deck_cards_before(slots, i) as int],
    ensures
        rotations_assigned(slots, a)[i] == rotations_assigned(slots, b)[i],
{
}

/// The slot after the look of its card has been brought in line.
pub open spec fn slot_synced(slot: Slot) -> Slot {
    if slot.alive {
        match slot.body {
            Body::Card(card) => Slot { body: Body::Card(card.synced()), ..slot },
            _ => slot,
        }
    } else {
        slot
    }
}

/// The slots after the look of every card has been brought in line with
/// its orientation.
pub open spec fn rotations_shown(slots: Seq<Slot>) -> Seq<Slot> {
    Seq::new(slots.len(), |i: int| slot_synced(slots[i]))
}

/// Makes every card whose orientation was set since the last pass look the
/// way it points: angle and tint are taken together from the orientation's
/// entry in the table. Cards whose orientation was not set are passed by.
pub fn rotation_transformation_system(world: &mut World)
    requires
        old(world).wf(),
    ensures
        final(world).wf(),
        final(world)@ == rotations_shown(old(world)@),
{
    let n = world.len();
    let mut i: usize = 0;
    while i < n
        invariant
            n == world@.len(),
            n == old(world)@.len(),
            i <= n,
            world.wf(),
            forall|j: int| 0 <= j < i ==> #[trigger] world@[j] == slot_synced(old(world)@[j]),
            forall|j: int| i <= j < n ==> #[trigger] world@[j] == old(world)@[j],
        decreases n - i,
    {
        let slot = world.slot(i);
        if slot.alive {
            match slot.body {
                Body::Card(card) => {
                    world.insert(i, Body::Card(card.sync()));
                },
                _ => {},
            }
        }
        i += 1;
    }
    assert(world@ =~= rotations_shown(old(world)@));
}

/// After the pass every card that exists looks the way it points, if its
/// orientation had been set, and is no longer counted as changed.
pub proof fn lemma_shown_cards_match_the_table(slots: Seq<Slot>, i: int)
    requires
        0 <= i < slots.len(),
        slots[i].alive,
        slots[i].body is Card,
    ensures
        ({
            let before = slots[i].body->Card_0;
            let after = rotations_shown(slots)[i].body->Card_0;
            &&& rotations_shown(slots)[i].body is Card
            &&& !after.rotation_changed
            &&& after.rotation == before.rotation
            &&& after.position == before.position
            &&& before.rotation_changed ==> after.angle == before.rotation.angle_of() && after.tint
                == before.rotation.tint_of()
            &&& !before.rotation_changed ==> after == before
        }),
{
}

/// Whether every card that exists is settled: drawn the way it points,
/// unless its orientation was set since the last pass.
pub open spec fn cards_settled(slots: Seq<Slot>) -> bool {
    forall|i: int|
        0 <= i < slots.len() && (#[trigger] slots[i]).alive ==> (slots[i].body matches Body::Card(
            card,
        ) ==> card.settled())
}

/// Whether every card that exists is drawn the way it points, with no
/// orientation waiting to be shown.
pub open spec fn cards_look_right(slots: Seq<Slot>) -> bool {
    forall|i: int|
        0 <= i < slots.len() && (#[trigger] slots[i]).alive ==> (slots[i].body matches Body::Card(
            card,
        ) ==> card.looks_right() && !card.rotation_changed)
}

/// Orientation and look agree after the pass: if every card was settled
/// before, every card that exists is drawn the way it points afterwards.
pub proof fn lemma_cards_look_right_after_the_pass(slots: Seq<Slot>)
    requires
        cards_settled(slots),
    ensures
        cards_look_right(rotations_shown(slots)),
{
    let shown = rotations_shown(slots);
    assert forall|i: int| 0 <= i < shown.len() && (#[trigger] shown[i]).alive implies (
    shown[i].body matches Body::Card(card) ==> card.looks_right() && !card.rotation_changed) by {
        let _ = slots[i];
    }
}

/// Whether `entity` is a card that exists.
pub open spec fn is_card(slots: Seq<Slot>, entity: int) -> bool {
    0 <= entity < slots.len() && slots[entity].alive && slots[entity].body is Card
}

/// The slots after the pointer has dragged the card `entity` by
/// `(dx, dy)`.
pub open spec fn dragged(slots: Seq<Slot>, entity: int, dx: i32, dy: i32) -> Seq<Slot> {
    slots.update(
        entity,
        Slot { body: Body::Card(slots[entity].body->Card_0.dragged_by(dx, dy)), ..slots[entity] },
    )
}

/// Whether the card `entity` can follow the pointer by `(dx, dy)`.
pub open spec fn can_drag(slots: Seq<Slot>, entity: int, dx: i32, dy: i32) -> bool {
    is_card(slots, entity) && slots[entity].body->Card_0.can_follow(dx, dy)
}

/// Says whether `entity` is a card that exists and can follow the pointer
/// by `(dx, dy)` without leaving the range of its coordinates.
pub fn drag_fits(world: &World, entity: usize, dx: i32, dy: i32) -> (fits: bool)
    ensures
        fits == can_drag(world@, entity as int, dx, dy),
{
    match world.get(entity) {
        Some(slot) => {
            match slot.body {
                Body::Card(card) => card.fits_drag(dx, dy),
                _ => false,
            }
        },
        None => false,
    }
}

/// Handles a drag of the card `entity`, at its start and at every move
/// while it lasts: the card is marked as dragged and moves with the
/// pointer, by `dx` along `x` and by `dy` against `y`, because the
/// pointer's `y` grows downwards and the world's upwards. Nothing keeps
/// the card on the table.
pub fn drag(world: &mut World, entity: usize, dx: i32, dy: i32)
    requires
        old(world).wf(),
        can_drag(old(world)@, entity as int, dx, dy),
    ensures
        final(world).wf(),
        final(world)@ == dragged(old(world)@, entity as int, dx, dy),
{
    let slot = world.slot(entity);
    match slot.body {
        Body::Card(card) => {
            world.insert(entity, Body::Card(card.drag(dx, dy)));
        },
        _ => {},
    }
}

/// The slot after a drag of it has ended.
pub open spec fn slot_released(slot: Slot) -> Slot {
    if slot.alive {
        match slot.body {
            Body::Card(card) => Slot { body: Body::Card(card.released()), ..slot },
            _ => slot,
        }
    } else {
        slot
    }
}

/// The slots after the drag of `entity` has ended.
pub open spec fn released(slots: Seq<Slot>, entity: int) -> Seq<Slot> {
    if 0 <= entity < slots.len() {
        slots.update(entity, slot_released(slots[entity]))
    } else {
        slots
    }
}

/// Handles the end of a drag of `entity`: the mark is taken off, and the
/// card stays where the drag has left it. Anything that is not a card that
/// exists is left alone.
pub fn drag_end(world: &mut World, entity: usize)
    requires
        old(world).wf(),
    ensures
        final(world).wf(),
        final(world)@ == released(old(world)@, entity as int),
{
    match world.get(entity) {
        Some(slot) => {
            match slot.body {
                Body::Card(card) => {
                    world.insert(entity, Body::Card(card.release()));
                },
                _ => {
                    assert(world@ =~= released(old(world)@, entity as int));
                },
            }
        },
        None => {},
    }
}

/// A drag moves the card with the pointer and marks it, and the end of the
/// drag takes the mark off without moving the card.
pub proof fn lemma_drag_and_release(slots: Seq<Slot>, entity: int, dx: i32, dy: i32)
    requires
        can_drag(slots, entity, dx, dy),
    ensures
        ({
            let before = slots[entity].body->Card_0;
            let during = dragged(slots, entity, dx, dy)[entity].body->Card_0;
            let after = released(dragged(slots, entity, dx, dy), entity)[entity].body->Card_0;
            &&& during.dragged
            &&& during.position.x == before.position.x + dx
            &&& during.position.y == before.position.y - dy
            &&& during.position.z == before.position.z
            &&& !after.dragged
            &&& after.position == during.position
        }),
{
}

} // verus!
