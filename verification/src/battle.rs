//! The battle engine: two parties exchange blows, round by round, until one
//! of them has no living member.
//!
//! The rules, where the engine had to choose:
//! - A member is alive while its health is above zero. The active combatant of
//!   a party is its first living member.
//! - Each combatant uses the move in its first slot, and the move's damage is
//!   taken from the defender's health as it stands.
//! - The combatant of side A strikes first only if it is strictly faster; with
//!   equal speeds side B strikes first.
//! - A combatant that faints does not strike back: the round ends at once.
//! - The use counts of a move are carried along and never changed.

use vstd::prelude::*;
use crate::creature::{PokeStats, Pokemon};
use crate::player::Player;

verus! {

/// One of the two parties of a battle.
#[derive(Debug, Clone, Copy, PartialEq, Eq, Structural)]
pub enum Side {
    A,
    B,
}

/// Something that happened in a battle.
#[derive(Debug, Clone, Copy, PartialEq, Eq)]
pub enum BattleEvent {
    /// The member of `side` at place `attacker` struck the member of the other
    /// side at place `defender`.
    Attack { side: Side, attacker: usize, defender: usize, damage: usize },
    /// The member of `side` at place `member` fainted.
    Fainted { side: Side, member: usize },
}

/// How a battle ended.
#[derive(Debug, Clone, Copy, PartialEq, Eq, Structural)]
pub enum MatchOutcome {
    /// Side B has no living member left, side A has.
    SideAWins,
    /// Side A has no living member left, side B has.
    SideBWins,
    /// Neither side has a living member.
    SimultaneousExhaustion,
}

/// The result of a battle: how it ended, and what happened on the way.
#[derive(Debug, PartialEq, Eq)]
pub struct BattleReport {
    pub outcome: MatchOutcome,
    pub events: Vec<BattleEvent>,
}

/// Whether a creature is alive: its health is above zero.
pub open spec fn is_alive<'a>(p: Pokemon<'a>) -> bool {
    p.stats.health > 0
}

/// Whether a party has a living member.
pub open spec fn any_alive<'a>(party: Seq<Pokemon<'a>>) -> bool {
    exists|i: int| 0 <= i < party.len() && is_alive(#[trigger] party[i])
}

/// The number of living members of a party.
pub open spec fn alive_count<'a>(party: Seq<Pokemon<'a>>) -> nat
    decreases party.len(),
{
    if party.len() == 0 {
        0
    } else {
        alive_count(party.drop_last()) + if is_alive(party.last()) {
            1nat
        } else {
            0nat
        }
    }
}

/// Whether `i` is the place of the first living member of a party.
pub open spec fn is_first_alive<'a>(party: Seq<Pokemon<'a>>, i: int) -> bool {
    &&& 0 <= i < party.len()
    &&& is_alive(party[i])
    &&& forall|j: int| 0 <= j < i ==> !is_alive(#[trigger] party[j])
}

/// The place of the active combatant of a party: its first living member, if
/// it has one.
pub open spec fn first_alive<'a>(party: Seq<Pokemon<'a>>) -> int {
    choose|i: int| is_first_alive(party, i)
}

/// The health that the living members of a party have left, taken together.
pub open spec fn remaining_health<'a>(party: Seq<Pokemon<'a>>) -> nat
    decreases party.len(),
{
    if party.len() == 0 {
        0
    } else {
        remaining_health(party.drop_last()) + if is_alive(party.last()) {
            party.last().stats.health as nat
        } else {
            0nat
        }
    }
}

/// The damage of the move in a creature's first slot; zero without a move.
pub open spec fn first_move_damage<'a>(p: Pokemon<'a>) -> nat {
    match p.moves.slot1 {
        Some(m) => m.damage as nat,
        None => 0,
    }
}

/// A party can fight when each member has a move in its first slot whose
/// damage can be taken from any health without leaving the machine's range.
pub open spec fn can_fight<'a>(party: Seq<Pokemon<'a>>) -> bool {
    forall|i: int|
        0 <= i < party.len() ==> (#[trigger] party[i]).moves.slot1 is Some && first_move_damage(
            party[i],
        ) <= isize::MAX
}

/// A party is ready for a whole battle when it can fight and each first move
/// does damage: a battle of harmless moves would never end.
pub open spec fn battle_ready<'a>(party: Seq<Pokemon<'a>>) -> bool {
    &&& can_fight(party)
    &&& forall|i: int| 0 <= i < party.len() ==> first_move_damage(#[trigger] party[i]) >= 1
}

/// The party after its member at place `i` took `damage`.
pub open spec fn struck<'a>(party: Seq<Pokemon<'a>>, i: int, damage: nat) -> Seq<Pokemon<'a>>
    recommends
        0 <= i < party.len(),
{
    party.update(
        i,
        Pokemon {
            stats: PokeStats {
                health: (party[i].stats.health - damage) as isize,
                ..party[i].stats
            },
            ..party[i]
        },
    )
}

/// Whether a battle between the two parties is over: one of them has no
/// living member.
pub open spec fn finished<'a, 'b>(a: Seq<Pokemon<'a>>, b: Seq<Pokemon<'b>>) -> bool {
    !any_alive(a) || !any_alive(b)
}

/// One round: both parties afterwards, and the events of the round. The side
/// that strikes first is A if its combatant is strictly faster, else B. If
/// the defender faints, the round is over; else the defender strikes back.
/// Between parties of which one has no living member nothing happens.
pub open spec fn round<'a, 'b>(a: Seq<Pokemon<'a>>, b: Seq<Pokemon<'b>>) -> (
    Seq<Pokemon<'a>>,
    Seq<Pokemon<'b>>,
    Seq<BattleEvent>,
) {
    if finished(a, b) {
        (a, b, Seq::empty())
    } else {
        let i = first_alive(a);
        let j = first_alive(b);
        let a_strikes = BattleEvent::Attack {
            side: Side::A,
            attacker: i as usize,
            defender: j as usize,
            damage: first_move_damage(a[i]) as usize,
        };
        let b_strikes = BattleEvent::Attack {
            side: Side::B,
            attacker: j as usize,
            defender: i as usize,
            damage: first_move_damage(b[j]) as usize,
        };
        let a_faints = BattleEvent::Fainted { side: Side::A, member: i as usize };
        let b_faints = BattleEvent::Fainted { side: Side::B, member: j as usize };
        let a_hit = struck(a, i, first_move_damage(b[j]));
        let b_hit = struck(b, j, first_move_damage(a[i]));
        if a[i].stats.speed > b[j].stats.speed {
            if !is_alive(b_hit[j]) {
                (a, b_hit, seq![a_strikes, b_faints])
            } else if !is_alive(a_hit[i]) {
                (a_hit, b_hit, seq![a_strikes, b_strikes, a_faints])
            } else {
                (a_hit, b_hit, seq![a_strikes, b_strikes])
            }
        } else {
            if !is_alive(a_hit[i]) {
                (a_hit, b, seq![b_strikes, a_faints])
            } else if !is_alive(b_hit[j]) {
                (a_hit, b_hit, seq![b_strikes, a_strikes, b_faints])
            } else {
                (a_hit, b_hit, seq![b_strikes, a_strikes])
            }
        }
    }
}

/// A whole battle: rounds follow one another until the battle is over. Gives
/// both parties at the end and all events in order.
pub open spec fn battle<'a, 'b>(a: Seq<Pokemon<'a>>, b: Seq<Pokemon<'b>>) -> (
    Seq<Pokemon<'a>>,
    Seq<Pokemon<'b>>,
    Seq<BattleEvent>,
)
    decreases remaining_health(a) + remaining_health(b),
    when battle_ready(a) && battle_ready(b)
    via battle_decreases
{
    if finished(a, b) {
        (a, b, Seq::empty())
    } else {
        let (a1, b1, first) = round(a, b);
        let (a2, b2, rest) = battle(a1, b1);
        (a2, b2, first + rest)
    }
}

#[via_fn]
proof fn battle_decreases<'a, 'b>(a: Seq<Pokemon<'a>>, b: Seq<Pokemon<'b>>) {
    if !finished(a, b) {
        lemma_round_makes_progress(a, b);
    }
}

/// How a finished battle is judged.
pub open spec fn outcome_of<'a, 'b>(a: Seq<Pokemon<'a>>, b: Seq<Pokemon<'b>>) -> MatchOutcome {
    if !any_alive(a) && !any_alive(b) {
        MatchOutcome::SimultaneousExhaustion
    } else if !any_alive(b) {
        MatchOutcome::SideAWins
    } else {
        MatchOutcome::SideBWins
    }
}

/// The first living member of a party is the only first one.
pub proof fn lemma_first_alive<'a>(party: Seq<Pokemon<'a>>, i: int)
    requires
        is_first_alive(party, i),
    ensures
        any_alive(party),
        first_alive(party) == i,
{
    let j = first_alive(party);
    assert(is_first_alive(party, j));
    if j < i {
        assert(!is_alive(party[j]));
    } else if i < j {
        assert(!is_alive(party[i]));
    }
}

/// A party with a living member has a first living member.
pub proof fn lemma_first_alive_exists<'a>(party: Seq<Pokemon<'a>>)
    requires
        any_alive(party),
    ensures
        is_first_alive(party, first_alive(party)),
    decreases party.len(),
{
    let k = choose|k: int| 0 <= k < party.len() && is_alive(#[trigger] party[k]);
    lemma_first_alive_up_to(party, k);
}

proof fn lemma_first_alive_up_to<'a>(party: Seq<Pokemon<'a>>, k: int)
    requires
        0 <= k < party.len(),
        is_alive(party[k]),
    ensures
        exists|i: int| is_first_alive(party, i),
    decreases k,
{
    if exists|j: int| 0 <= j < k && is_alive(#[trigger] party[j]) {
        let j = choose|j: int| 0 <= j < k && is_alive(#[trigger] party[j]);
        lemma_first_alive_up_to(party, j);
    } else {
        assert(is_first_alive(party, k));
    }
}

/// A party has no living member exactly when its count of them is zero.
pub proof fn lemma_alive_count_zero<'a>(party: Seq<Pokemon<'a>>)
    ensures
        alive_count(party) == 0 <==> !any_alive(party),
    decreases party.len(),
{
    if party.len() > 0 {
        let front = party.drop_last();
        lemma_alive_count_zero(front);
        if any_alive(party) {
            let k = choose|k: int| 0 <= k < party.len() && is_alive(#[trigger] party[k]);
            if k < party.len() - 1 {
                assert(is_alive(front[k]));
            }
        }
        if any_alive(front) {
            let k = choose|k: int| 0 <= k < front.len() && is_alive(#[trigger] front[k]);
            assert(is_alive(party[k]));
        }
        if is_alive(party.last()) {
            assert(is_alive(party[party.len() - 1]));
        }
    }
}

/// A blow never adds to the health that a party has left, and a blow that
/// does damage to a living member takes from it.
pub proof fn lemma_struck_health<'a>(party: Seq<Pokemon<'a>>, i: int, damage: nat)
    requires
        0 <= i < party.len(),
        damage <= isize::MAX,
        is_alive(party[i]),
    ensures
        remaining_health(struck(party, i, damage)) <= remaining_health(party),
        damage >= 1 ==> remaining_health(struck(party, i, damage)) < remaining_health(party),
    decreases party.len(),
{
    let after = struck(party, i, damage);
    if i == party.len() - 1 {
        assert(after.drop_last() == party.drop_last());
    } else {
        lemma_struck_health(party.drop_last(), i, damage);
        assert(after.drop_last() == struck(party.drop_last(), i, damage));
        assert(after.last() == party.last());
    }
}

/// A round between parties that can fight leaves their members' names and
/// moves as they were, so the parties can still fight.
pub proof fn lemma_round_keeps_ready<'a, 'b>(a: Seq<Pokemon<'a>>, b: Seq<Pokemon<'b>>)
    ensures
        round(a, b).0.len() == a.len(),
        round(a, b).1.len() == b.len(),
        can_fight(a) ==> can_fight(round(a, b).0),
        can_fight(b) ==> can_fight(round(a, b).1),
        battle_ready(a) ==> battle_ready(round(a, b).0),
        battle_ready(b) ==> battle_ready(round(a, b).1),
{
    if !finished(a, b) {
        lemma_first_alive_exists(a);
        lemma_first_alive_exists(b);
        let i = first_alive(a);
        let j = first_alive(b);
        let a_hit = struck(a, i, first_move_damage(b[j]));
        let b_hit = struck(b, j, first_move_damage(a[i]));
        assert forall|k: int| 0 <= k < a.len() implies (#[trigger] a_hit[k]).moves == a[k].moves by {}
        assert forall|k: int| 0 <= k < b.len() implies (#[trigger] b_hit[k]).moves == b[k].moves by {}
    }
}

/// Battles end: every round of an unfinished battle between ready parties
/// takes from the health that the two parties have left.
pub proof fn lemma_round_makes_progress<'a, 'b>(a: Seq<Pokemon<'a>>, b: Seq<Pokemon<'b>>)
    requires
        battle_ready(a),
        battle_ready(b),
        !finished(a, b),
    ensures
        remaining_health(round(a, b).0) + remaining_health(round(a, b).1) < remaining_health(a)
            + remaining_health(b),
{
    lemma_first_alive_exists(a);
    lemma_first_alive_exists(b);
    let i = first_alive(a);
    let j = first_alive(b);
    lemma_struck_health(a, i, first_move_damage(b[j]));
    lemma_struck_health(b, j, first_move_damage(a[i]));
}

/// Who strikes first: unless side A's combatant is strictly faster, side B's
/// blow comes first and always lands, and where it fells side A's combatant
/// side B is left unharmed. With a strictly faster combatant of side A the
/// same holds with the sides exchanged.
pub proof fn lemma_first_blow<'a, 'b>(a: Seq<Pokemon<'a>>, b: Seq<Pokemon<'b>>)
    requires
        !finished(a, b),
    ensures
        ({
            let i = first_alive(a);
            let j = first_alive(b);
            let a_hit = struck(a, i, first_move_damage(b[j]));
            let b_hit = struck(b, j, first_move_damage(a[i]));
            if a[i].stats.speed > b[j].stats.speed {
                &&& round(a, b).2[0] == BattleEvent::Attack {
                    side: Side::A,
                    attacker: i as usize,
                    defender: j as usize,
                    damage: first_move_damage(a[i]) as usize,
                }
                &&& round(a, b).1 == b_hit
                &&& !is_alive(b_hit[j]) ==> round(a, b).0 == a
            } else {
                &&& round(a, b).2[0] == BattleEvent::Attack {
                    side: Side::B,
                    attacker: j as usize,
                    defender: i as usize,
                    damage: first_move_damage(b[j]) as usize,
                }
                &&& round(a, b).0 == a_hit
                &&& !is_alive(a_hit[i]) ==> round(a, b).1 == b
            }
        }),
{
}

/// A round never fells both sides: of two parties with a living member each,
/// at least one still has one afterwards.
pub proof fn lemma_round_one_side_stands<'a, 'b>(a: Seq<Pokemon<'a>>, b: Seq<Pokemon<'b>>)
    requires
        can_fight(a),
        can_fight(b),
        any_alive(a),
        any_alive(b),
    ensures
        any_alive(round(a, b).0) || any_alive(round(a, b).1),
{
    lemma_first_alive_exists(a);
    lemma_first_alive_exists(b);
    let i = first_alive(a);
    let j = first_alive(b);
    let a_hit = struck(a, i, first_move_damage(b[j]));
    let b_hit = struck(b, j, first_move_damage(a[i]));
    let (a1, b1, _events) = round(a, b);
    if a1 == a {
        assert(is_alive(a1[i]));
    } else if b1 == b {
        assert(is_alive(b1[j]));
    } else if is_alive(a_hit[i]) {
        assert(is_alive(a1[i]));
    } else {
        assert(is_alive(b1[j]));
    }
}

/// The damage that a move does: its base damage, whatever the attacker's
/// statistics and the attack type.
pub fn calculate_damage(base_damage: usize, stats: &PokeStats, attack_type: &str) -> (r: usize)
    ensures
        r == base_damage,
{
    base_damage
}

/// The number of living members of a party.
pub fn alive_pokemons<'a>(p: &Vec<Pokemon<'a>>) -> (alive: usize)
    ensures
        alive == alive_count(p@),
{
    let mut alive: usize = 0;
    let mut i: usize = 0;
    assert(p@.take(0) == Seq::<Pokemon<'a>>::empty());
    while i < p.len()
        invariant
            i <= p.len(),
            alive == alive_count(p@.take(i as int)),
            alive <= i,
        decreases p.len() - i,
    {
        proof {
            assert(p@.take(i + 1).drop_last() == p@.take(i as int));
            assert(p@.take(i + 1).last() == p@[i as int]);
        }
        if p[i].stats.health > 0 {
            alive += 1;
        }
        i += 1;
    }
    assert(p@.take(i as int) == p@);
    alive
}

/// The place of the active combatant of a party: its first living member.
pub fn active_member<'a>(p: &Vec<Pokemon<'a>>) -> (r: Option<usize>)
    ensures
        match r {
            Some(i) => is_first_alive(p@, i as int),
            None => !any_alive(p@),
        },
{
    let mut i: usize = 0;
    while i < p.len()
        invariant
            i <= p.len(),
            forall|j: int| 0 <= j < i ==> !is_alive(#[trigger] p@[j]),
        decreases p.len() - i,
    {
        if p[i].stats.health > 0 {
            return Some(i);
        }
        i += 1;
    }
    None
}

/// Whether a party is ready for a battle.
pub fn is_battle_ready<'a>(p: &Vec<Pokemon<'a>>) -> (r: bool)
    ensures
        r == battle_ready(p@),
{
    let mut i: usize = 0;
    while i < p.len()
        invariant
            i <= p.len(),
            forall|j: int|
                0 <= j < i ==> (#[trigger] p@[j]).moves.slot1 is Some && 1 <= first_move_damage(
                    p@[j],
                ) <= isize::MAX,
        decreases p.len() - i,
    {
        match p[i].moves.slot1 {
            None => {
                return false;
            },
            Some(m) => {
                if m.damage < 1 || m.damage > isize::MAX as usize {
                    assert(!(1 <= first_move_damage(p@[i as int]) <= isize::MAX));
                    return false;
                }
            },
        }
        i += 1;
    }
    true
}

/// Fights one round and returns its events. Between parties of which one has
/// no living member nothing happens.
pub fn battle_round<'a, 'b>(a: &mut Vec<Pokemon<'a>>, b: &mut Vec<Pokemon<'b>>) -> (events: Vec<
    BattleEvent,
>)
    requires
        can_fight(old(a)@),
        can_fight(old(b)@),
    ensures
        (final(a)@, final(b)@, events@) == round(old(a)@, old(b)@),
{
    let mut events: Vec<BattleEvent> = Vec::new();
    let i = match active_member(a) {
        Some(i) => i,
        None => {
            return events;
        },
    };
    let j = match active_member(b) {
        Some(j) => j,
        None => {
            return events;
        },
    };
    proof {
        lemma_first_alive(a@, i as int);
        lemma_first_alive(b@, j as int);
    }
    let user_skill = a[i].moves.slot1.unwrap();
    let enemy_skill = b[j].moves.slot1.unwrap();
    let user_damage = calculate_damage(user_skill.damage, &a[i].stats, user_skill.attack_type);
    let enemy_damage = calculate_damage(enemy_skill.damage, &b[j].stats, enemy_skill.attack_type);
    let a_strikes = BattleEvent::Attack {
        side: Side::A,
        attacker: i,
        defender: j,
        damage: user_damage,
    };
    let b_strikes = BattleEvent::Attack {
        side: Side::B,
        attacker: j,
        defender: i,
        damage: enemy_damage,
    };
    let ghost a_hit = struck(a@, i as int, enemy_damage as nat);
    let ghost b_hit = struck(b@, j as int, user_damage as nat);
    if a[i].stats.speed > b[j].stats.speed {
        let health = b[j].stats.health;
        b[j].stats.health = health - user_damage as isize;
        assert(b@ == b_hit);
        events.push(a_strikes);
        if b[j].stats.health <= 0 {
            events.push(BattleEvent::Fainted { side: Side::B, member: j });
            assert(events@ == seq![a_strikes, BattleEvent::Fainted { side: Side::B, member: j }]);
            return events;
        }
        let health = a[i].stats.health;
        a[i].stats.health = health - enemy_damage as isize;
        assert(a@ == a_hit);
        events.push(b_strikes);
        if a[i].stats.health <= 0 {
            events.push(BattleEvent::Fainted { side: Side::A, member: i });
            assert(events@ == seq![
                a_strikes,
                b_strikes,
                BattleEvent::Fainted { side: Side::A, member: i },
            ]);
            return events;
        }
        assert(events@ == seq![a_strikes, b_strikes]);
    } else {
        let health = a[i].stats.health;
        a[i].stats.health = health - enemy_damage as isize;
        assert(a@ == a_hit);
        events.push(b_strikes);
        if a[i].stats.health <= 0 {
            events.push(BattleEvent::Fainted { side: Side::A, member: i });
            assert(events@ == seq![b_strikes, BattleEvent::Fainted { side: Side::A, member: i }]);
            return events;
        }
        let health = b[j].stats.health;
        b[j].stats.health = health - user_damage as isize;
        assert(b@ == b_hit);
        events.push(a_strikes);
        if b[j].stats.health <= 0 {
            events.push(BattleEvent::Fainted { side: Side::B, member: j });
            assert(events@ == seq![
                b_strikes,
                a_strikes,
                BattleEvent::Fainted { side: Side::B, member: j },
            ]);
            return events;
        }
        assert(events@ == seq![b_strikes, a_strikes]);
    }
    events
}

/// Fights a battle to its end: rounds follow one another while both parties
/// have a living member. Returns who won and everything that happened.
pub fn run_battle<'a, 'b>(a: &mut Vec<Pokemon<'a>>, b: &mut Vec<Pokemon<'b>>) -> (report:
    BattleReport)
    requires
        battle_ready(old(a)@),
        battle_ready(old(b)@),
    ensures
        (final(a)@, final(b)@, report.events@) == battle(old(a)@, old(b)@),
        finished(final(a)@, final(b)@),
        report.outcome == outcome_of(final(a)@, final(b)@),
        report.outcome == MatchOutcome::SimultaneousExhaustion <==> !any_alive(old(a)@)
            && !any_alive(old(b)@),
{
    let mut events: Vec<BattleEvent> = Vec::new();
    let mut user_alive = alive_pokemons(a);
    let mut enemy_alive = alive_pokemons(b);
    proof {
        lemma_alive_count_zero(a@);
        lemma_alive_count_zero(b@);
        assert(events@ + battle(a@, b@).2 == battle(a@, b@).2);
    }
    while user_alive > 0 && enemy_alive > 0
        invariant
            battle_ready(a@),
            battle_ready(b@),
            user_alive > 0 <==> any_alive(a@),
            enemy_alive > 0 <==> any_alive(b@),
            battle(old(a)@, old(b)@) == (
                battle(a@, b@).0,
                battle(a@, b@).1,
                events@ + battle(a@, b@).2,
            ),
            any_alive(old(a)@) || any_alive(old(b)@) ==> any_alive(a@) || any_alive(b@),
            !any_alive(old(a)@) && !any_alive(old(b)@) ==> !any_alive(a@) && !any_alive(b@),
        decreases remaining_health(a@) + remaining_health(b@),
    {
        let ghost a0 = a@;
        let ghost b0 = b@;
        let ghost before = events@;
        proof {
            lemma_round_makes_progress(a0, b0);
            lemma_round_keeps_ready(a0, b0);
            lemma_round_one_side_stands(a0, b0);
        }
        let mut round_events = battle_round(a, b);
        let ghost first = round_events@;
        events.append(&mut round_events);
        user_alive = alive_pokemons(a);
        enemy_alive = alive_pokemons(b);
        proof {
            lemma_alive_count_zero(a@);
            lemma_alive_count_zero(b@);
            assert(before + (first + battle(a@, b@).2) == events@ + battle(a@, b@).2);
        }
    }
    proof {
        assert(events@ + Seq::<BattleEvent>::empty() == events@);
    }
    let outcome = if user_alive == 0 && enemy_alive == 0 {
        MatchOutcome::SimultaneousExhaustion
    } else if enemy_alive == 0 {
        MatchOutcome::SideAWins
    } else {
        MatchOutcome::SideBWins
    };
    BattleReport { outcome, events }
}

/// Fights a battle between the parties of two players. Nothing but the
/// parties changes.
pub fn battle_match<'a, 'b>(p1: &mut Player<'a>, p2: &mut Player<'b>) -> (report: BattleReport)
    requires
        battle_ready(old(p1).party@),
        battle_ready(old(p2).party@),
    ensures
        (final(p1).party@, final(p2).party@, report.events@) == battle(
            old(p1).party@,
            old(p2).party@,
        ),
        finished(final(p1).party@, final(p2).party@),
        report.outcome == outcome_of(final(p1).party@, final(p2).party@),
        final(p1).trainer_card == old(p1).trainer_card,
        final(p1).backpack == old(p1).backpack,
        final(p1).pokedex == old(p1).pokedex,
        final(p2).trainer_card == old(p2).trainer_card,
        final(p2).backpack == old(p2).backpack,
        final(p2).pokedex == old(p2).pokedex,
{
    run_battle(&mut p1.party, &mut p2.party)
}

} // verus!
