//! Effect application: what an item's effects do to the party members that
//! carry the target name.

use vstd::prelude::*;
use crate::creature::{has_member, names_of, stats_of, with_stats, PokeStats, Pokemon, PokemonStatus};
use crate::player::Player;
use crate::effect::{effects_of, pair_views, parse_effects, EffectPair};
use crate::error::{GameError, GameErrorView};
use crate::number::{all_digits, decimal_value, number_of, slice_to_number};
use crate::text::str_eq;

verus! {

/// What one effect did to one creature.
#[derive(Debug, Clone, Copy, PartialEq, Eq, Structural)]
pub enum EffectOutcome {
    /// Health went up.
    Healed,
    /// A status was cured.
    Cured,
    /// The effect is known but changed nothing: healing at full health, or a
    /// cure without a status to cure.
    NoEffect,
    /// The effect's name is neither `Heal` nor `Status`; nothing was done.
    Unrecognized,
}

/// Health after healing by `amount`: it rises by `amount`, but not above
/// `max_health`.
pub open spec fn healed_health(health: int, max_health: int, amount: nat) -> int {
    if health + amount > max_health {
        max_health
    } else {
        health + amount
    }
}

/// What one effect does to a creature's statistics, and how it is reported.
///
/// `Heal` with a decimal value raises health below `max_health` by that
/// value, up to `max_health`; at or above `max_health` it does nothing, and
/// its value is not read. `Status` cures any status and does nothing to a
/// healthy creature. Any other name does nothing.
pub open spec fn effect_on(stats: PokeStats, effect: (Seq<char>, Seq<char>)) -> Result<
    (PokeStats, EffectOutcome),
    GameErrorView,
> {
    if effect.0 == "Heal"@ {
        if stats.health < stats.max_health {
            match number_of(effect.1) {
                Err(e) => Err(e),
                Ok(amount) => Ok(
                    (
                        PokeStats {
                            health: healed_health(
                                stats.health as int,
                                stats.max_health as int,
                                amount,
                            ) as isize,
                            ..stats
                        },
                        EffectOutcome::Healed,
                    ),
                ),
            }
        } else {
            Ok((stats, EffectOutcome::NoEffect))
        }
    } else if effect.0 == "Status"@ {
        if stats.status == PokemonStatus::Healthy {
            Ok((stats, EffectOutcome::NoEffect))
        } else {
            Ok((PokeStats { status: PokemonStatus::Healthy, ..stats }, EffectOutcome::Cured))
        }
    } else {
        Ok((stats, EffectOutcome::Unrecognized))
    }
}

/// Applies one effect to a creature's statistics. On an error the statistics
/// stay as they were.
pub fn apply_effect(stats: &mut PokeStats, effect: &EffectPair) -> (r: Result<
    EffectOutcome,
    GameError,
>)
    ensures
        match effect_on(*old(stats), effect@) {
            Ok((after, outcome)) => r == Ok::<EffectOutcome, GameError>(outcome) && *final(stats)
                == after,
            Err(e) => r matches Err(err) && err@ == e && *final(stats) == *old(stats),
        },
{
    if str_eq(effect.name.as_str(), "Heal") {
        if stats.health < stats.max_health {
            let room: i128 = stats.max_health as i128 - stats.health as i128;
            match slice_to_number(effect.value.as_str()) {
                Ok(amount) => {
                    if amount as i128 > room {
                        stats.health = stats.max_health;
                    } else {
                        stats.health = (stats.health as i128 + amount as i128) as isize;
                    }
                },
                Err(GameError::NumberTooLarge) => {
                    stats.health = stats.max_health;
                },
                Err(e) => {
                    return Err(e);
                },
            }
            Ok(EffectOutcome::Healed)
        } else {
            Ok(EffectOutcome::NoEffect)
        }
    } else if str_eq(effect.name.as_str(), "Status") {
        match stats.status {
            PokemonStatus::Healthy => Ok(EffectOutcome::NoEffect),
            _ => {
                stats.status = PokemonStatus::Healthy;
                Ok(EffectOutcome::Cured)
            },
        }
    } else {
        Ok(EffectOutcome::Unrecognized)
    }
}

/// Healing a creature whose health is not below its maximum changes nothing
/// and is reported as without effect, whatever the amount says.
pub proof fn lemma_heal_at_full_health(stats: PokeStats, value: Seq<char>)
    requires
        stats.health >= stats.max_health,
    ensures
        effect_on(stats, ("Heal"@, value)) == Ok::<(PokeStats, EffectOutcome), GameErrorView>(
            (stats, EffectOutcome::NoEffect),
        ),
{
}

/// Healing a creature below its maximum by a decimal amount changes its
/// health only: health rises by the amount, or to the maximum where the
/// amount would lead beyond it, and never above the maximum.
pub proof fn lemma_heal_is_clamped(stats: PokeStats, value: Seq<char>)
    requires
        stats.health < stats.max_health,
        all_digits(value),
    ensures
        effect_on(stats, ("Heal"@, value)) matches Ok((after, outcome)) && {
            &&& outcome == EffectOutcome::Healed
            &&& after == (PokeStats { health: after.health, ..stats })
            &&& stats.health <= after.health <= stats.max_health
            &&& stats.health + decimal_value(value) <= stats.max_health ==> after.health
                == stats.health + decimal_value(value)
            &&& stats.health + decimal_value(value) >= stats.max_health ==> after.health
                == stats.max_health
        },
{
}

/// Healing is safe to repeat: once an item has filled a creature's health, a
/// second use of it has no effect.
pub proof fn lemma_heal_twice(stats: PokeStats, value: Seq<char>)
    requires
        stats.health < stats.max_health,
        all_digits(value),
        stats.health + decimal_value(value) >= stats.max_health,
    ensures
        effect_on(stats, ("Heal"@, value)) matches Ok((after, _outcome)) && effect_on(
            after,
            ("Heal"@, value),
        ) == Ok::<(PokeStats, EffectOutcome), GameErrorView>((after, EffectOutcome::NoEffect)),
{
}

/// A status effect leaves a healthy creature as it is and reports no effect;
/// it cures any other status, changing nothing else. Either way the creature
/// is healthy afterwards, and the effect's value plays no part.
pub proof fn lemma_status_cure(stats: PokeStats, value: Seq<char>)
    ensures
        stats.status == PokemonStatus::Healthy ==> effect_on(stats, ("Status"@, value)) == Ok::<
            (PokeStats, EffectOutcome),
            GameErrorView,
        >((stats, EffectOutcome::NoEffect)),
        stats.status != PokemonStatus::Healthy ==> effect_on(stats, ("Status"@, value)) == Ok::<
            (PokeStats, EffectOutcome),
            GameErrorView,
        >((PokeStats { status: PokemonStatus::Healthy, ..stats }, EffectOutcome::Cured)),
        effect_on(stats, ("Status"@, value)) matches Ok((after, _outcome)) && after.status
            == PokemonStatus::Healthy,
{
    reveal_strlit("Heal");
    reveal_strlit("Status");
    assert("Status"@.len() != "Heal"@.len());
}

/// What one effect does to the members that carry the target name, member by
/// member: the statistics of all members afterwards, and one outcome for
/// each member that carries the name. The first member that fails decides.
pub open spec fn effect_on_all(
    names: Seq<Seq<char>>,
    stats: Seq<PokeStats>,
    target: Seq<char>,
    effect: (Seq<char>, Seq<char>),
) -> Result<(Seq<PokeStats>, Seq<EffectOutcome>), GameErrorView>
    recommends
        names.len() == stats.len(),
    decreases stats.len(),
{
    if stats.len() == 0 {
        Ok((Seq::empty(), Seq::empty()))
    } else {
        match effect_on_all(names.drop_last(), stats.drop_last(), target, effect) {
            Err(e) => Err(e),
            Ok((done, outcomes)) => if names.last() != target {
                Ok((done.push(stats.last()), outcomes))
            } else {
                match effect_on(stats.last(), effect) {
                    Err(e) => Err(e),
                    Ok((after, outcome)) => Ok((done.push(after), outcomes.push(outcome))),
                }
            },
        }
    }
}

/// What a list of effects does, effect by effect and within each effect
/// member by member. The first failure decides.
pub open spec fn effects_on_all(
    names: Seq<Seq<char>>,
    stats: Seq<PokeStats>,
    target: Seq<char>,
    effects: Seq<(Seq<char>, Seq<char>)>,
) -> Result<(Seq<PokeStats>, Seq<EffectOutcome>), GameErrorView>
    recommends
        names.len() == stats.len(),
    decreases effects.len(),
{
    if effects.len() == 0 {
        Ok((stats, Seq::empty()))
    } else {
        match effects_on_all(names, stats, target, effects.drop_last()) {
            Err(e) => Err(e),
            Ok((mid, first)) => match effect_on_all(names, mid, target, effects.last()) {
                Err(e) => Err(e),
                Ok((after, last)) => Ok((after, first + last)),
            },
        }
    }
}

/// What a list of effects does to a party when aimed at `target`: the party
/// afterwards, in which only statistics of members of that name can differ,
/// and the outcomes in order.
pub open spec fn effects_on_members<'a>(
    members: Seq<Pokemon<'a>>,
    target: Seq<char>,
    effects: Seq<(Seq<char>, Seq<char>)>,
) -> Result<(Seq<Pokemon<'a>>, Seq<EffectOutcome>), GameErrorView> {
    match effects_on_all(names_of(members), stats_of(members), target, effects) {
        Err(e) => Err(e),
        Ok((stats, outcomes)) => Ok((with_stats(members, stats), outcomes)),
    }
}

/// What an ability text does to a party when aimed at `target`. Without a
/// member of that name the result is `TargetNotInParty`, whatever the text; a
/// text that does not parse gives the parser's error; and an effect that
/// fails gives its error.
pub open spec fn ability_on_members<'a>(
    members: Seq<Pokemon<'a>>,
    target: Seq<char>,
    ability: Seq<char>,
) -> Result<(Seq<Pokemon<'a>>, Seq<EffectOutcome>), GameErrorView> {
    if !has_member(members, target) {
        Err(GameErrorView::TargetNotInParty)
    } else {
        match effects_of(ability) {
            Err(e) => Err(e),
            Ok(effects) => effects_on_members(members, target, effects),
        }
    }
}

proof fn lemma_member_failure(
    names: Seq<Seq<char>>,
    stats: Seq<PokeStats>,
    target: Seq<char>,
    effect: (Seq<char>, Seq<char>),
    j: int,
)
    requires
        names.len() == stats.len(),
        0 <= j < stats.len(),
        effect_on_all(names.take(j + 1), stats.take(j + 1), target, effect) is Err,
    ensures
        effect_on_all(names, stats, target, effect) == effect_on_all(
            names.take(j + 1),
            stats.take(j + 1),
            target,
            effect,
        ),
    decreases stats.len() - j,
{
    if j + 1 == stats.len() {
        assert(names.take(j + 1) == names);
        assert(stats.take(j + 1) == stats);
    } else {
        assert(names.take(j + 2).drop_last() == names.take(j + 1));
        assert(stats.take(j + 2).drop_last() == stats.take(j + 1));
        lemma_member_failure(names, stats, target, effect, j + 1);
    }
}

proof fn lemma_effect_failure(
    names: Seq<Seq<char>>,
    stats: Seq<PokeStats>,
    target: Seq<char>,
    effects: Seq<(Seq<char>, Seq<char>)>,
    k: int,
)
    requires
        0 <= k < effects.len(),
        effects_on_all(names, stats, target, effects.take(k + 1)) is Err,
    ensures
        effects_on_all(names, stats, target, effects) == effects_on_all(
            names,
            stats,
            target,
            effects.take(k + 1),
        ),
    decreases effects.len() - k,
{
    if k + 1 == effects.len() {
        assert(effects.take(k + 1) == effects);
    } else {
        assert(effects.take(k + 2).drop_last() == effects.take(k + 1));
        lemma_effect_failure(names, stats, target, effects, k + 1);
    }
}

/// Applies a list of effects to the members of a party that carry the name
/// `target`, effect by effect, and reports one outcome for each effect and
/// each such member. On an error the party stays as it was.
pub fn apply_effect_list<'a>(
    effects: &Vec<EffectPair>,
    members: &mut Vec<Pokemon<'a>>,
    target: &str,
) -> (r: Result<Vec<EffectOutcome>, GameError>)
    ensures
        match effects_on_members(old(members)@, target@, pair_views(effects@)) {
            Ok((after, outcomes)) => r matches Ok(v) && v@ == outcomes && final(members)@ == after,
            Err(e) => r matches Err(err) && err@ == e && final(members)@ == old(members)@,
        },
{
    let ghost before = members@;
    let ghost names = names_of(before);
    let ghost pairs = pair_views(effects@);
    let mut staged: Vec<PokeStats> = Vec::new();
    let mut i: usize = 0;
    while i < members.len()
        invariant
            i <= members.len(),
            members@ == before,
            staged@ == stats_of(before).take(i as int),
        decreases members.len() - i,
    {
        staged.push(members[i].stats);
        assert(staged@ == stats_of(before).take(i + 1));
        i += 1;
    }
    assert(staged@ == stats_of(before));
    let mut outcomes: Vec<EffectOutcome> = Vec::new();
    let mut k: usize = 0;
    assert(pairs.take(0) == Seq::<(Seq<char>, Seq<char>)>::empty());
    while k < effects.len()
        invariant
            k <= effects.len(),
            members@ == before,
            names == names_of(before),
            pairs == pair_views(effects@),
            staged.len() == before.len(),
            effects_on_all(names, stats_of(before), target@, pairs.take(k as int)) == Ok::<
                (Seq<PokeStats>, Seq<EffectOutcome>),
                GameErrorView,
            >((staged@, outcomes@)),
        decreases effects.len() - k,
    {
        let ghost start = staged@;
        let ghost first = outcomes@;
        let ghost effect = pairs[k as int];
        assert(effect == effects@[k as int]@);
        proof {
            assert(pairs.take(k + 1).drop_last() == pairs.take(k as int));
            assert(pairs.take(k + 1).last() == effect);
        }
        let mut j: usize = 0;
        assert(names.take(0) == Seq::<Seq<char>>::empty());
        assert(start.take(0) == Seq::<PokeStats>::empty());
        assert(outcomes@.skip(first.len() as int) == Seq::<EffectOutcome>::empty());
        while j < members.len()
            invariant
                j <= members.len(),
                k < effects.len(),
                members@ == before,
                names == names_of(before),
                pairs == pair_views(effects@),
                effect == pairs[k as int],
                effect == effects@[k as int]@,
                staged.len() == before.len(),
                start.len() == before.len(),
                forall|i: int| j <= i < staged.len() ==> staged@[i] == start[i],
                first.len() <= outcomes@.len(),
                outcomes@.take(first.len() as int) == first,
                effects_on_all(names, stats_of(before), target@, pairs.take(k as int)) == Ok::<
                    (Seq<PokeStats>, Seq<EffectOutcome>),
                    GameErrorView,
                >((start, first)),
                pairs.take(k + 1).drop_last() == pairs.take(k as int),
                pairs.take(k + 1).last() == effect,
                effect_on_all(names.take(j as int), start.take(j as int), target@, effect) == Ok::<
                    (Seq<PokeStats>, Seq<EffectOutcome>),
                    GameErrorView,
                >((staged@.take(j as int), outcomes@.skip(first.len() as int))),
            decreases members.len() - j,
        {
            let ghost done = staged@.take(j as int);
            let ghost inner = outcomes@.skip(first.len() as int);
            proof {
                assert(names.take(j + 1).drop_last() == names.take(j as int));
                assert(start.take(j + 1).drop_last() == start.take(j as int));
                assert(names.take(j + 1).last() == before[j as int].name@);
                assert(start.take(j + 1).last() == start[j as int]);
            }
            if str_eq(members[j].name.as_str(), target) {
                let mut stats = staged[j];
                match apply_effect(&mut stats, &effects[k]) {
                    Err(e) => {
                        proof {
                            assert(effect_on(start[j as int], effect) is Err);
                            assert(effect_on_all(
                                names.take(j + 1),
                                start.take(j + 1),
                                target@,
                                effect,
                            ) is Err);
                            lemma_member_failure(names, start, target@, effect, j as int);
                            assert(effects_on_all(
                                names,
                                stats_of(before),
                                target@,
                                pairs.take(k + 1),
                            ) is Err);
                            lemma_effect_failure(
                                names,
                                stats_of(before),
                                target@,
                                pairs,
                                k as int,
                            );
                        }
                        return Err(e);
                    },
                    Ok(outcome) => {
                        staged.set(j, stats);
                        outcomes.push(outcome);
                        proof {
                            assert(staged@.take(j + 1) == done.push(stats));
                            assert(outcomes@.skip(first.len() as int) == inner.push(outcome));
                        }
                    },
                }
            } else {
                proof {
                    assert(staged@.take(j + 1) == done.push(start[j as int]));
                }
            }
            j += 1;
        }
        proof {
            assert(names.take(j as int) == names);
            assert(start.take(j as int) == start);
            assert(staged@.take(j as int) == staged@);
            assert(outcomes@ == first + outcomes@.skip(first.len() as int));
        }
        k += 1;
    }
    assert(pairs.take(k as int) == pairs);
    let mut m: usize = 0;
    while m < members.len()
        invariant
            m <= members.len(),
            members.len() == before.len(),
            staged.len() == before.len(),
            forall|i: int| 0 <= i < m ==> members@[i] == with_stats(before, staged@)[i],
            forall|i: int| m <= i < members.len() ==> members@[i] == before[i],
        decreases members.len() - m,
    {
        members[m].stats = staged[m];
        m += 1;
    }
    assert(members@ == with_stats(before, staged@));
    Ok(outcomes)
}

/// Applies an ability text to the members of a party that carry the name
/// `target`. A party without such a member is reported as `TargetNotInParty`
/// before the text is read. On any error the party stays as it was.
pub fn apply_effects<'a>(ability: &str, members: &mut Vec<Pokemon<'a>>, target: &str) -> (r: Result<
    Vec<EffectOutcome>,
    GameError,
>)
    ensures
        match ability_on_members(old(members)@, target@, ability@) {
            Ok((after, outcomes)) => r matches Ok(v) && v@ == outcomes && final(members)@ == after,
            Err(e) => r matches Err(err) && err@ == e && final(members)@ == old(members)@,
        },
{
    if !Player::look_for_pokemon_in_party(members, target) {
        return Err(GameError::TargetNotInParty);
    }
    match parse_effects(ability) {
        Ok(effects) => apply_effect_list(&effects, members, target),
        Err(e) => Err(e),
    }
}

} // verus!
