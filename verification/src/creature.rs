//! Creatures: their combat statistics, their moves, and the fixed move list
//! that every creature draws from.

use vstd::prelude::*;
use crate::error::GameError;
use crate::text::str_eq;

verus! {

/// A lasting condition of a creature.
#[derive(Debug, Clone, Copy, PartialEq, Eq, Structural)]
pub enum PokemonStatus {
    Healthy,
    Poison,
    Confused,
}

/// The combat statistics of a creature. `health` may drop below zero.
#[derive(Debug, Clone, Copy, PartialEq, Eq)]
pub struct PokeStats {
    pub level: usize,
    pub attack: usize,
    pub defense: usize,
    pub special_attack: usize,
    pub special_defense: usize,
    pub speed: usize,
    pub evade: usize,
    pub health: isize,
    pub max_health: isize,
    pub status: PokemonStatus,
}

/// A move that a creature can use.
#[derive(Debug, Clone, Copy, PartialEq, Eq)]
pub struct Move<'a> {
    pub name: &'a str,
    pub attack_type: &'a str,
    pub damage: usize,
    pub current_use: usize,
    pub max_use: usize,
}

/// What a move holds, as plain values.
pub struct MoveView {
    pub name: Seq<char>,
    pub attack_type: Seq<char>,
    pub damage: nat,
    pub current_use: nat,
    pub max_use: nat,
}

impl<'a> View for Move<'a> {
    type V = MoveView;

    open spec fn view(&self) -> MoveView {
        MoveView {
            name: self.name@,
            attack_type: self.attack_type@,
            damage: self.damage as nat,
            current_use: self.current_use as nat,
            max_use: self.max_use as nat,
        }
    }
}

/// The four move slots of a creature.
#[derive(Debug, Clone, Copy, PartialEq, Eq)]
pub struct PokeMoves<'a> {
    pub slot1: Option<Move<'a>>,
    pub slot2: Option<Move<'a>>,
    pub slot3: Option<Move<'a>>,
    pub slot4: Option<Move<'a>>,
}

/// A creature: a name, up to four moves, and its statistics.
#[derive(Debug, PartialEq, Eq)]
pub struct Pokemon<'a> {
    pub name: String,
    pub moves: PokeMoves<'a>,
    pub stats: PokeStats,
}

/// The statistics that every new creature starts with.
pub open spec fn default_stats() -> PokeStats {
    PokeStats {
        level: 1,
        attack: 10,
        defense: 20,
        special_attack: 12,
        special_defense: 20,
        speed: 4,
        evade: 5,
        health: 100,
        max_health: 100,
        status: PokemonStatus::Healthy,
    }
}

impl PokeStats {
    /// The statistics that every new creature starts with.
    pub fn default() -> (r: PokeStats)
        ensures
            r == default_stats(),
    {
        PokeStats {
            level: 1,
            attack: 10,
            defense: 20,
            special_attack: 12,
            special_defense: 20,
            speed: 4,
            evade: 5,
            health: 100,
            max_health: 100,
            status: PokemonStatus::Healthy,
        }
    }
}

/// What `str::to_lowercase` returns for a string of these characters.
pub uninterp spec fn lowercase_of(s: Seq<char>) -> Seq<char>;

/// Calls `str::to_lowercase`, which maps a string to its lowercase
/// equivalent by the Unicode tables built into the standard library. The
/// contract only names the result: it depends on the characters of `s` alone.
#[verifier::external_body]
fn lowercase(s: &str) -> (r: String)
    ensures
        r@ == lowercase_of(s@),
{
    s.to_lowercase()
}

/// The attack types that a move may have, in lower case.
pub open spec fn valid_types() -> Seq<Seq<char>> {
    seq!["fire"@, "water"@, "psyche"@, "normal"@, "darkness"@]
}

/// Whether an attack type is one of the valid types, compared without regard
/// to case: both sides are taken to lower case first.
pub open spec fn is_valid_attack_type(attack_type: Seq<char>) -> bool {
    exists|k: int|
        0 <= k < valid_types().len() && lowercase_of(attack_type) == lowercase_of(
            #[trigger] valid_types()[k],
        )
}

/// The views of a list of string slices.
pub open spec fn str_views(v: Seq<&'static str>) -> Seq<Seq<char>> {
    Seq::new(v.len(), |i: int| v[i]@)
}

/// The valid attack types as a list.
pub fn valid_type_names() -> (r: Vec<&'static str>)
    ensures
        str_views(r@) == valid_types(),
{
    let r = vec!["fire", "water", "psyche", "normal", "darkness"];
    assert(str_views(r@) == valid_types());
    r
}

/// Whether `attack_type` is a valid attack type.
pub fn attack_type_is_valid(attack_type: &str) -> (r: bool)
    ensures
        r == is_valid_attack_type(attack_type@),
{
    let lowered = lowercase(attack_type);
    let names = valid_type_names();
    let mut k: usize = 0;
    while k < names.len()
        invariant
            k <= names.len(),
            str_views(names@) == valid_types(),
            lowered@ == lowercase_of(attack_type@),
            forall|j: int|
                0 <= j < k ==> lowercase_of(attack_type@) != lowercase_of(
                    #[trigger] valid_types()[j],
                ),
        decreases names.len() - k,
    {
        let candidate = lowercase(names[k]);
        assert(str_views(names@)[k as int] == names@[k as int]@);
        if str_eq(lowered.as_str(), candidate.as_str()) {
            return true;
        }
        k += 1;
    }
    assert(str_views(names@).len() == names@.len());
    false
}

/// The views of a list of moves.
pub open spec fn move_views<'a>(moves: Seq<Move<'a>>) -> Seq<MoveView> {
    Seq::new(moves.len(), |i: int| moves[i]@)
}

/// Whether every move of the list has a valid attack type.
pub open spec fn all_valid_types(moves: Seq<MoveView>) -> bool {
    forall|i: int| 0 <= i < moves.len() ==> is_valid_attack_type((#[trigger] moves[i]).attack_type)
}

/// The fixed list of moves.
pub open spec fn fixed_moves() -> Seq<MoveView> {
    seq![
        MoveView { name: "Ember"@, attack_type: "Fire"@, damage: 10, current_use: 20, max_use: 20 },
        MoveView {
            name: "Water Gun"@,
            attack_type: "Water"@,
            damage: 30,
            current_use: 20,
            max_use: 20,
        },
        MoveView {
            name: "Tackle"@,
            attack_type: "Normal"@,
            damage: 20,
            current_use: 50,
            max_use: 50,
        },
        MoveView {
            name: "Burba Blast"@,
            attack_type: "Psyche"@,
            damage: 120,
            current_use: 1,
            max_use: 1,
        },
    ]
}

/// The view of a move slot.
pub open spec fn slot_view<'a>(slot: Option<Move<'a>>) -> Option<MoveView> {
    match slot {
        Some(m) => Some(m@),
        None => None,
    }
}

/// Accepts a list of moves only if each has a valid attack type.
pub fn check_moves<'a>(moves: &Vec<Move<'a>>) -> (r: Result<(), GameError>)
    ensures
        all_valid_types(move_views(moves@)) ==> r == Ok::<(), GameError>(()),
        !all_valid_types(move_views(moves@)) ==> r == Err::<(), GameError>(
            GameError::InvalidAttackType,
        ),
{
    let mut i: usize = 0;
    while i < moves.len()
        invariant
            i <= moves.len(),
            forall|j: int|
                0 <= j < i ==> is_valid_attack_type((#[trigger] move_views(moves@)[j]).attack_type),
        decreases moves.len() - i,
    {
        if !attack_type_is_valid(moves[i].attack_type) {
            assert(!is_valid_attack_type(move_views(moves@)[i as int].attack_type));
            return Err(GameError::InvalidAttackType);
        }
        i += 1;
    }
    Ok(())
}

/// The fixed list of moves, once the attack type of each has been checked.
pub fn explicit_moves<'a>() -> (r: Result<Vec<Move<'a>>, GameError>)
    ensures
        all_valid_types(fixed_moves()) ==> (r matches Ok(moves) && move_views(moves@)
            == fixed_moves()),
        !all_valid_types(fixed_moves()) ==> r == Err::<Vec<Move<'a>>, GameError>(
            GameError::InvalidAttackType,
        ),
{
    let moves = vec![
        Move { name: "Ember", attack_type: "Fire", damage: 10, current_use: 20, max_use: 20 },
        Move { name: "Water Gun", attack_type: "Water", damage: 30, current_use: 20, max_use: 20 },
        Move { name: "Tackle", attack_type: "Normal", damage: 20, current_use: 50, max_use: 50 },
        Move {
            name: "Burba Blast",
            attack_type: "Psyche",
            damage: 120,
            current_use: 1,
            max_use: 1,
        },
    ];
    assert(move_views(moves@) == fixed_moves());
    match check_moves(&moves) {
        Ok(()) => Ok(moves),
        Err(e) => Err(e),
    }
}

impl<'a> Pokemon<'a> {
    /// A creature called `name` with the starting statistics; its first slot
    /// holds the first of the fixed moves and its third slot the fourth. Fails
    /// when the fixed moves do not pass the check of their attack types.
    pub fn new(name: &'a str) -> (r: Result<Pokemon<'a>, GameError>)
        ensures
            all_valid_types(fixed_moves()) ==> (r matches Ok(p) && {
                &&& p.name@ == name@
                &&& p.stats == default_stats()
                &&& slot_view(p.moves.slot1) == Some(fixed_moves()[0])
                &&& p.moves.slot2 is None
                &&& slot_view(p.moves.slot3) == Some(fixed_moves()[3])
                &&& p.moves.slot4 is None
            }),
            !all_valid_types(fixed_moves()) ==> r == Err::<Pokemon<'a>, GameError>(
                GameError::InvalidAttackType,
            ),
    {
        match explicit_moves() {
            Err(e) => Err(e),
            Ok(sets) => {
                assert(move_views(sets@)[0] == sets@[0]@);
                assert(move_views(sets@)[3] == sets@[3]@);
                Ok(
                    Pokemon {
                        name: name.to_owned(),
                        moves: PokeMoves {
                            slot1: Some(sets[0]),
                            slot2: None,
                            slot3: Some(sets[3]),
                            slot4: None,
                        },
                        stats: PokeStats::default(),
                    },
                )
            },
        }
    }
}

/// The names of the members of a party, in order.
pub open spec fn names_of<'a>(members: Seq<Pokemon<'a>>) -> Seq<Seq<char>> {
    Seq::new(members.len(), |i: int| members[i].name@)
}

/// The statistics of the members of a party, in order.
pub open spec fn stats_of<'a>(members: Seq<Pokemon<'a>>) -> Seq<PokeStats> {
    Seq::new(members.len(), |i: int| members[i].stats)
}

/// The party whose members are those of `members`, each with the statistics
/// that `stats` holds at its place.
pub open spec fn with_stats<'a>(members: Seq<Pokemon<'a>>, stats: Seq<PokeStats>) -> Seq<
    Pokemon<'a>,
>
    recommends
        stats.len() == members.len(),
{
    Seq::new(members.len(), |i: int| Pokemon { stats: stats[i], ..members[i] })
}

/// Whether a member of the party carries `name`.
pub open spec fn has_member<'a>(members: Seq<Pokemon<'a>>, name: Seq<char>) -> bool {
    exists|i: int| 0 <= i < members.len() && (#[trigger] members[i]).name@ == name
}

} // verus!
