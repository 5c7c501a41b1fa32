//! The inventory: an ordered list of item stacks.

use vstd::prelude::*;
use crate::apply::{apply_effect_list, effects_on_members, EffectOutcome};
use crate::catalog::{ability_of, valid_stack, Item, ItemView};
use crate::creature::{has_member, Pokemon};
use crate::effect::{effects_of, pair_views, parse_effects, EffectPair};
use crate::error::{GameError, GameErrorView};
use crate::player::Player;
use crate::text::str_eq;

verus! {

/// The stacks a player owns, in the order in which they were first acquired.
#[derive(Debug, PartialEq, Eq)]
pub struct Backpack<'a> {
    pub data: Vec<Item<'a>>,
}

impl<'a> View for Backpack<'a> {
    type V = Seq<ItemView>;

    open spec fn view(&self) -> Seq<ItemView> {
        Seq::new(self.data@.len(), |i: int| self.data@[i]@)
    }
}

/// Whether a stack of `stacks` carries `name`.
pub open spec fn owns(stacks: Seq<ItemView>, name: Seq<char>) -> bool {
    exists|i: int| 0 <= i < stacks.len() && (#[trigger] stacks[i]).name == name
}

/// A well-formed inventory: every stack is one that the catalog allows, and
/// no two stacks carry the same name.
pub open spec fn well_formed(stacks: Seq<ItemView>) -> bool {
    &&& forall|i: int| 0 <= i < stacks.len() ==> valid_stack(#[trigger] stacks[i])
    &&& forall|i: int, j: int|
        0 <= i < j < stacks.len() ==> (#[trigger] stacks[i]).name != (#[trigger] stacks[j]).name
}

/// Whether `i` is the place of the first stack that carries `name`.
pub open spec fn is_position_of(stacks: Seq<ItemView>, name: Seq<char>, i: int) -> bool {
    &&& 0 <= i < stacks.len()
    &&& stacks[i].name == name
    &&& forall|j: int| 0 <= j < i ==> (#[trigger] stacks[j]).name != name
}

/// The place of the first stack that carries `name`, if there is one.
pub open spec fn position_of(stacks: Seq<ItemView>, name: Seq<char>) -> int {
    choose|i: int| is_position_of(stacks, name, i)
}

/// The first stack of a name is owned, and is the only first one.
pub proof fn lemma_position_of(stacks: Seq<ItemView>, name: Seq<char>, i: int)
    requires
        is_position_of(stacks, name, i),
    ensures
        owns(stacks, name),
        position_of(stacks, name) == i,
{
    let j = position_of(stacks, name);
    assert(is_position_of(stacks, name, j));
    if j < i {
        assert(stacks[j].name != name);
    } else if i < j {
        assert(stacks[i].name != name);
    }
}

/// An owned name has a first stack.
pub proof fn lemma_position_exists(stacks: Seq<ItemView>, name: Seq<char>)
    requires
        owns(stacks, name),
    ensures
        is_position_of(stacks, name, position_of(stacks, name)),
{
    let k = choose|k: int| 0 <= k < stacks.len() && (#[trigger] stacks[k]).name == name;
    lemma_position_up_to(stacks, name, k);
}

proof fn lemma_position_up_to(stacks: Seq<ItemView>, name: Seq<char>, k: int)
    requires
        0 <= k < stacks.len(),
        stacks[k].name == name,
    ensures
        exists|i: int| is_position_of(stacks, name, i),
    decreases k,
{
    if exists|j: int| 0 <= j < k && (#[trigger] stacks[j]).name == name {
        let j = choose|j: int| 0 <= j < k && (#[trigger] stacks[j]).name == name;
        lemma_position_up_to(stacks, name, j);
    } else {
        assert(is_position_of(stacks, name, k));
    }
}

/// The inventory after one item called `name` was acquired: an owned stack of
/// that name grows by one; else a new stack of one item goes to the end, if
/// the catalog has the name.
pub open spec fn acquired(stacks: Seq<ItemView>, name: Seq<char>) -> Result<
    Seq<ItemView>,
    GameErrorView,
> {
    if owns(stacks, name) {
        let i = position_of(stacks, name);
        Ok(stacks.update(i, ItemView { quantity: stacks[i].quantity + 1, ..stacks[i] }))
    } else {
        match ability_of(name) {
            Some(ability) => Ok(stacks.push(ItemView { name, ability, quantity: 1 })),
            None => Err(GameErrorView::UnknownItem),
        }
    }
}

/// The inventory after one item of the stack called `name` was used up: the
/// stack shrinks by one, and leaves the inventory with its last item.
pub open spec fn consumed(stacks: Seq<ItemView>, name: Seq<char>) -> Seq<ItemView>
    recommends
        owns(stacks, name),
{
    let i = position_of(stacks, name);
    if stacks[i].quantity > 1 {
        stacks.update(i, ItemView { quantity: (stacks[i].quantity - 1) as nat, ..stacks[i] })
    } else {
        stacks.remove(i)
    }
}

/// The inventory after `n` items called `name` were acquired one by one.
pub open spec fn acquired_times(stacks: Seq<ItemView>, name: Seq<char>, n: nat) -> Seq<ItemView>
    decreases n,
{
    if n == 0 {
        stacks
    } else {
        let before = acquired_times(stacks, name, (n - 1) as nat);
        match acquired(before, name) {
            Ok(after) => after,
            Err(_) => before,
        }
    }
}

/// Acquiring keeps an inventory well formed.
pub proof fn lemma_acquired_well_formed(stacks: Seq<ItemView>, name: Seq<char>)
    requires
        well_formed(stacks),
    ensures
        acquired(stacks, name) matches Ok(after) ==> well_formed(after),
{
    if owns(stacks, name) {
        lemma_position_exists(stacks, name);
    }
}

/// Acquiring a catalog item `n` times, in an inventory that had none of it,
/// adds exactly one stack, which holds `n` items.
pub proof fn lemma_acquire_n_times(stacks: Seq<ItemView>, name: Seq<char>, n: nat)
    requires
        !owns(stacks, name),
        ability_of(name) is Some,
        n >= 1,
    ensures
        acquired_times(stacks, name, n) == stacks.push(
            ItemView { name, ability: ability_of(name)->0, quantity: n },
        ),
    decreases n,
{
    if n > 1 {
        lemma_acquire_n_times(stacks, name, (n - 1) as nat);
        let before = acquired_times(stacks, name, (n - 1) as nat);
        let last = stacks.len() as int;
        assert(before[last].name == name);
        assert(is_position_of(before, name, last));
        lemma_position_of(before, name, last);
        assert(acquired(before, name)->Ok_0 == stacks.push(
            ItemView { name, ability: ability_of(name)->0, quantity: n },
        ));
    } else {
        assert(acquired_times(stacks, name, 0) == stacks);
    }
}

/// Using up one item of a stack in a well-formed inventory takes one from the
/// stack's quantity, removes the stack exactly when that was its last item,
/// touches no other stack, and leaves the inventory well formed: no stack is
/// ever left with a quantity of zero.
pub proof fn lemma_consumed(stacks: Seq<ItemView>, name: Seq<char>)
    requires
        well_formed(stacks),
        owns(stacks, name),
    ensures
        well_formed(consumed(stacks, name)),
        forall|k: int|
            0 <= k < consumed(stacks, name).len() ==> (#[trigger] consumed(
                stacks,
                name,
            )[k]).quantity >= 1,
        stacks[position_of(stacks, name)].quantity > 1 ==> {
            &&& owns(consumed(stacks, name), name)
            &&& consumed(stacks, name).len() == stacks.len()
            &&& consumed(stacks, name)[position_of(consumed(stacks, name), name)].quantity
                == stacks[position_of(stacks, name)].quantity - 1
        },
        stacks[position_of(stacks, name)].quantity == 1 ==> {
            &&& !owns(consumed(stacks, name), name)
            &&& consumed(stacks, name).len() == stacks.len() - 1
        },
{
    lemma_position_exists(stacks, name);
    let i = position_of(stacks, name);
    let after = consumed(stacks, name);
    assert(valid_stack(stacks[i]));
    if stacks[i].quantity > 1 {
        assert(after[i].name == name);
        assert(is_position_of(after, name, i));
        lemma_position_of(after, name, i);
    } else {
        assert forall|k: int| 0 <= k < after.len() implies (#[trigger] after[k]).name != name by {
            if k < i {
                assert(after[k] == stacks[k]);
            } else {
                assert(after[k] == stacks[k + 1]);
            }
        }
        assert forall|k: int| 0 <= k < after.len() implies valid_stack(#[trigger] after[k]) by {
            if k < i {
                assert(after[k] == stacks[k]);
            } else {
                assert(after[k] == stacks[k + 1]);
            }
        }
        assert forall|k: int, m: int| 0 <= k < m < after.len() implies (#[trigger] after[k]).name
            != (#[trigger] after[m]).name by {
            let k0 = if k < i { k } else { k + 1 };
            let m0 = if m < i { m } else { m + 1 };
            assert(after[k] == stacks[k0]);
            assert(after[m] == stacks[m0]);
        }
    }
}

/// The effect pairs of the item that a stack holds, by the catalog's text for
/// the stack's name.
pub open spec fn actions_of(name: Seq<char>) -> Result<
    Seq<(Seq<char>, Seq<char>)>,
    GameErrorView,
> {
    match ability_of(name) {
        None => Err(GameErrorView::UnknownItem),
        Some(ability) => effects_of(ability),
    }
}

/// What using the item called `name` on the members called `target` does:
/// the inventory and the party afterwards, and the outcomes. The use is
/// refused, in this order, when no stack carries the name (`NotOwned`), when
/// no member carries the target name (`TargetNotInParty`), when the item's
/// effects cannot be read, and when an effect fails.
pub open spec fn item_use<'a>(
    stacks: Seq<ItemView>,
    members: Seq<Pokemon<'a>>,
    name: Seq<char>,
    target: Seq<char>,
) -> Result<(Seq<ItemView>, Seq<Pokemon<'a>>, Seq<EffectOutcome>), GameErrorView> {
    if !owns(stacks, name) {
        Err(GameErrorView::NotOwned)
    } else if !has_member(members, target) {
        Err(GameErrorView::TargetNotInParty)
    } else {
        match actions_of(name) {
            Err(e) => Err(e),
            Ok(effects) => match effects_on_members(members, target, effects) {
                Err(e) => Err(e),
                Ok((after, outcomes)) => Ok((consumed(stacks, name), after, outcomes)),
            },
        }
    }
}

/// One line of the inventory's listing: the name, a colon and a space, and
/// the ability text.
pub open spec fn listing_line(stack: ItemView) -> Seq<char> {
    stack.name + ": "@ + stack.ability
}

/// The effect pairs of the item that `item` holds, read from the catalog's
/// text for its name.
pub fn actions(item: &Item) -> (r: Result<Vec<EffectPair>, GameError>)
    ensures
        match actions_of(item@.name) {
            Ok(pairs) => r matches Ok(v) && pair_views(v@) == pairs,
            Err(e) => r matches Err(err) && err@ == e,
        },
{
    match Item::ability_from_name(item.name) {
        None => Err(GameError::UnknownItem),
        Some(ability) => parse_effects(ability),
    }
}

impl<'a> Backpack<'a> {
    /// Whether this inventory is well formed.
    pub open spec fn wf(&self) -> bool {
        well_formed(self@)
    }

    /// An empty inventory.
    pub fn new() -> (r: Backpack<'a>)
        ensures
            r@ == Seq::<ItemView>::empty(),
            r.wf(),
    {
        let r = Backpack { data: Vec::new() };
        assert(r@ == Seq::<ItemView>::empty());
        r
    }

    /// Visits the stacks in order and hands each, with its place, to `call`,
    /// until `call` answers `true`. Returns the place at which it did, or
    /// `None` when it never did.
    pub fn walk_through_items<F: Fn(usize, &Item<'a>) -> bool>(&self, call: F) -> (r: Option<usize>)
        requires
            forall|i: int|
                0 <= i < self.data@.len() ==> call_requires(
                    call,
                    (i as usize, &#[trigger] self.data@[i]),
                ),
        ensures
            match r {
                Some(stop) => {
                    &&& stop < self.data@.len()
                    &&& call_ensures(call, (stop, &self.data@[stop as int]), true)
                    &&& forall|i: int|
                        0 <= i < stop ==> call_ensures(
                            call,
                            (i as usize, &#[trigger] self.data@[i]),
                            false,
                        )
                },
                None => forall|i: int|
                    0 <= i < self.data@.len() ==> call_ensures(
                        call,
                        (i as usize, &#[trigger] self.data@[i]),
                        false,
                    ),
            },
    {
        let mut idx: usize = 0;
        while idx < self.data.len()
            invariant
                idx <= self.data@.len(),
                forall|i: int|
                    0 <= i < self.data@.len() ==> call_requires(
                        call,
                        (i as usize, &#[trigger] self.data@[i]),
                    ),
                forall|i: int|
                    0 <= i < idx ==> call_ensures(
                        call,
                        (i as usize, &#[trigger] self.data@[i]),
                        false,
                    ),
            decreases self.data@.len() - idx,
        {
            if call(idx, &self.data[idx]) {
                return Some(idx);
            }
            idx += 1;
        }
        None
    }

    /// The place of the first stack that carries `name`.
    pub fn find(&self, name: &str) -> (r: Option<usize>)
        ensures
            match r {
                Some(i) => is_position_of(self@, name@, i as int),
                None => !owns(self@, name@),
            },
    {
        let carries_name = |_idx: usize, item: &Item| -> (stop: bool)
            ensures
                stop == (item.name@ == name@),
            { str_eq(item.name, name) };
        let r = self.walk_through_items(carries_name);
        proof {
            match r {
                Some(stop) => {
                    assert(self@[stop as int] == self.data@[stop as int]@);
                    assert forall|j: int| 0 <= j < stop implies (#[trigger] self@[j]).name
                        != name@ by {
                        assert(self@[j] == self.data@[j]@);
                    }
                },
                None => {
                    assert forall|j: int| 0 <= j < self@.len() implies (#[trigger] self@[j]).name
                        != name@ by {
                        assert(self@[j] == self.data@[j]@);
                    }
                },
            }
        }
        r
    }

    /// Whether a stack carries `name`.
    pub fn look_up(&self, name: &str) -> (r: bool)
        ensures
            r == owns(self@, name@),
    {
        match self.find(name) {
            Some(i) => {
                proof {
                    lemma_position_of(self@, name@, i as int);
                }
                true
            },
            None => false,
        }
    }

    /// The listing of the inventory: one line for each stack, in order.
    pub fn show_items(&self) -> (r: Vec<String>)
        ensures
            r@.len() == self@.len(),
            forall|i: int| 0 <= i < r@.len() ==> (#[trigger] r@[i])@ == listing_line(self@[i]),
    {
        let mut lines: Vec<String> = Vec::new();
        let mut i: usize = 0;
        while i < self.data.len()
            invariant
                i <= self.data@.len(),
                lines@.len() == i,
                forall|j: int| 0 <= j < i ==> (#[trigger] lines@[j])@ == listing_line(self@[j]),
            decreases self.data@.len() - i,
        {
            let item = &self.data[i];
            let line = item.name.to_owned().concat(": ").concat(item.ability);
            assert(line@ == listing_line(self@[i as int]));
            lines.push(line);
            i += 1;
        }
        lines
    }

    /// Acquires one item called `name`: an owned stack of that name grows by
    /// one; else the name is checked against the catalog and a new stack of
    /// one item goes to the end. An unknown name changes nothing.
    pub fn acquire_item(&mut self, name: &'a str) -> (r: Result<(), GameError>)
        requires
            owns(old(self)@, name@) ==> old(self)@[position_of(old(self)@, name@)].quantity
                < usize::MAX,
        ensures
            match acquired(old(self)@, name@) {
                Ok(stacks) => r == Ok::<(), GameError>(()) && final(self)@ == stacks,
                Err(e) => r matches Err(err) && err@ == e && final(self)@ == old(self)@,
            },
            old(self).wf() ==> final(self).wf(),
    {
        match self.find(name) {
            Some(i) => {
                proof {
                    lemma_position_of(self@, name@, i as int);
                }
                let quantity = self.data[i].quantity;
                self.data[i].quantity = quantity + 1;
                proof {
                    let stacks = old(self)@;
                    assert(self@ == stacks.update(
                        i as int,
                        ItemView { quantity: stacks[i as int].quantity + 1, ..stacks[i as int] },
                    ));
                }
                Ok(())
            },
            None => {
                match Item::new(name) {
                    Ok(item) => {
                        self.data.push(item);
                        proof {
                            assert(self@ == old(self)@.push(item@));
                        }
                        Ok(())
                    },
                    Err(e) => Err(e),
                }
            },
        }
    }

    /// Uses one item called `name` on the members of `party` that carry the
    /// name `target`: the item's effects are applied, and then the stack
    /// shrinks by one, leaving the inventory with its last item. When the use
    /// is refused, inventory and party stay as they were.
    pub fn use_item(&mut self, name: &str, party: &mut Vec<Pokemon<'a>>, target: &str) -> (r: Result<
        Vec<EffectOutcome>,
        GameError,
    >)
        ensures
            match item_use(old(self)@, old(party)@, name@, target@) {
                Ok((stacks, members, outcomes)) => {
                    &&& r matches Ok(v) && v@ == outcomes
                    &&& final(self)@ == stacks
                    &&& final(party)@ == members
                },
                Err(e) => {
                    &&& r matches Err(err) && err@ == e
                    &&& final(self)@ == old(self)@
                    &&& final(party)@ == old(party)@
                },
            },
            old(self).wf() ==> final(self).wf(),
    {
        let in_index = match self.find(name) {
            Some(i) => i,
            None => {
                return Err(GameError::NotOwned);
            },
        };
        proof {
            lemma_position_of(self@, name@, in_index as int);
        }
        if !Player::look_for_pokemon_in_party(party, target) {
            return Err(GameError::TargetNotInParty);
        }
        let effects = match actions(&self.data[in_index]) {
            Ok(effects) => effects,
            Err(e) => {
                return Err(e);
            },
        };
        let outcomes = match apply_effect_list(&effects, party, target) {
            Ok(outcomes) => outcomes,
            Err(e) => {
                return Err(e);
            },
        };
        let ghost stacks = old(self)@;
        if self.data[in_index].quantity > 1 {
            let quantity = self.data[in_index].quantity;
            self.data[in_index].quantity = quantity - 1;
            proof {
                assert(self@ == stacks.update(
                    in_index as int,
                    ItemView {
                        quantity: (stacks[in_index as int].quantity - 1) as nat,
                        ..stacks[in_index as int]
                    },
                ));
            }
        } else {
            self.data.remove(in_index);
            proof {
                assert(self@ == stacks.remove(in_index as int));
            }
        }
        Ok(outcomes)
    }
}

} // verus!
