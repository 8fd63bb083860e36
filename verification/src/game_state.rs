//! The mutable play state: the game's name, the current position in the
//! story, and the named boolean flags and integer counters that the story
//! reads and writes. Reads of names never set do not fail: an unset flag is
//! `false` and an unset counter is `0`.

use vstd::prelude::*;

use crate::strmap::{pairs_map, StrMap};

verus! {

/// The play state of one run: a name used as the persistence identity, the
/// current story file and block, and the flag and counter stores.
#[derive(Debug, PartialEq)]
pub struct GameState {
    /// The name of the game, also the identity under which it is persisted.
    pub name: String,
    /// The story file and the block currently presented, in that order.
    pub progress: (String, String),
    /// Named boolean flags; a name never set reads as `false`.
    pub flags: StrMap<bool>,
    /// Named integer counters; a name never set reads as `0`.
    pub counters: StrMap<i32>,
}

/// The mathematical value of a play state.
pub struct GameStateV {
    /// The game's name.
    pub name: Seq<char>,
    /// The current story file.
    pub story: Seq<char>,
    /// The current block within the story file.
    pub block: Seq<char>,
    /// The flag store.
    pub flags: Map<Seq<char>, bool>,
    /// The counter store.
    pub counters: Map<Seq<char>, i32>,
}

impl View for GameState {
    type V = GameStateV;

    open spec fn view(&self) -> GameStateV {
        GameStateV {
            name: self.name@,
            story: self.progress.0@,
            block: self.progress.1@,
            flags: self.flags@,
            counters: self.counters@,
        }
    }
}

/// The value of a flag, `false` when the name is not bound.
pub open spec fn flag_of(st: GameStateV, k: Seq<char>) -> bool {
    if st.flags.contains_key(k) {
        st.flags[k]
    } else {
        false
    }
}

/// The value of a counter, `0` when the name is not bound.
pub open spec fn counter_of(st: GameStateV, k: Seq<char>) -> i32 {
    if st.counters.contains_key(k) {
        st.counters[k]
    } else {
        0
    }
}

/// The state after setting one flag.
pub open spec fn with_flag(st: GameStateV, k: Seq<char>, v: bool) -> GameStateV {
    GameStateV { flags: st.flags.insert(k, v), ..st }
}

/// The state after adding `d` to one counter, the unset counter reading as
/// zero; the sum wraps around on overflow.
pub open spec fn with_counter_added(st: GameStateV, k: Seq<char>, d: i32) -> GameStateV {
    GameStateV {
        counters: st.counters.insert(k, vstd::wrapping::i32_specs::wrapping_add(counter_of(st, k), d)),
        ..st
    }
}

/// The state after moving the current position.
pub open spec fn with_progress(st: GameStateV, story: Seq<char>, block: Seq<char>) -> GameStateV {
    GameStateV { story: story, block: block, ..st }
}

impl GameState {
    /// Well-formed: both stores are well-formed maps. `new` establishes this
    /// and every mutating method preserves it.
    pub open spec fn wf(self) -> bool {
        self.flags.wf() && self.counters.wf()
    }

    /// A fresh play state with the given name, no flags, and the single
    /// counter `score` seeded to zero.
    pub fn new(name_in: &str) -> (r: GameState)
        ensures
            r.wf(),
            r@.name == name_in@,
            r@.story == Seq::<char>::empty(),
            r@.block == Seq::<char>::empty(),
            r@.flags == Map::<Seq<char>, bool>::empty(),
            r@.counters == Map::<Seq<char>, i32>::empty().insert("score"@, 0),
    {
        let mut counters_init: StrMap<i32> = StrMap::new();
        counters_init.insert("score", 0);
        GameState {
            name: name_in.to_owned(),
            progress: (String::new(), String::new()),
            flags: StrMap::new(),
            counters: counters_init,
        }
    }

    /// The value of the given flag, `false` when it was never set.
    pub fn get_flag(&self, name: &str) -> (r: bool)
        requires
            self.wf(),
        ensures
            r == flag_of(self@, name@),
    {
        match self.flags.get(name) {
            Some(v) => v,
            None => false,
        }
    }

    /// The value of the given counter, `0` when it was never set.
    pub fn get_counter(&self, name: &str) -> (r: i32)
        requires
            self.wf(),
        ensures
            r == counter_of(self@, name@),
    {
        match self.counters.get(name) {
            Some(v) => v,
            None => 0,
        }
    }

    /// Sets the given flag, overwriting any earlier value.
    pub fn set_flag(&mut self, name: &str, val: bool)
        requires
            old(self).wf(),
        ensures
            final(self).wf(),
            final(self)@ == with_flag(old(self)@, name@, val),
    {
        self.flags.insert(name, val);
    }

    /// Adds `val` to the given counter, an unset counter reading as zero; the
    /// sum wraps around on overflow.
    pub fn update_counter(&mut self, name: &str, val: i32)
        requires
            old(self).wf(),
        ensures
            final(self).wf(),
            final(self)@ == with_counter_added(old(self)@, name@, val),
    {
        let new_val: i32 = self.get_counter(name).wrapping_add(val);
        self.counters.insert(name, new_val);
    }

    /// Adds `n` to the `score` counter.
    pub fn add_score(&mut self, n: i32)
        requires
            old(self).wf(),
        ensures
            final(self).wf(),
            final(self)@ == with_counter_added(old(self)@, "score"@, n),
    {
        self.update_counter("score", n);
    }

    /// Moves the current position to the given story file and block.
    pub fn set_progress(&mut self, story: &str, block: &str)
        requires
            old(self).wf(),
        ensures
            final(self).wf(),
            final(self)@ == with_progress(old(self)@, story@, block@),
    {
        self.progress.0 = story.to_owned();
        self.progress.1 = block.to_owned();
    }

    /// Whether the `game_over` flag has been set, on which the surrounding
    /// application ends the run.
    pub fn check_game_over(&self) -> (r: bool)
        requires
            self.wf(),
        ensures
            r == flag_of(self@, "game_over"@),
    {
        self.get_flag("game_over")
    }
}


/// A name never set reads as the defaults: a flag as `false`, a counter as
/// zero.
pub proof fn lemma_unset_defaults(st: GameStateV, name: Seq<char>)
    requires
        !st.flags.contains_key(name),
        !st.counters.contains_key(name),
    ensures
        flag_of(st, name) == false,
        counter_of(st, name) == 0,
{
}

/// In a fresh play state every flag reads `false` and every counter reads
/// zero: no flag is set, and the one seeded counter, `score`, is zero.
pub proof fn lemma_fresh_state_defaults(st: GameStateV, name: Seq<char>)
    requires
        st.flags == Map::<Seq<char>, bool>::empty(),
        st.counters == Map::<Seq<char>, i32>::empty().insert("score"@, 0),
    ensures
        flag_of(st, name) == false,
        counter_of(st, name) == 0,
{
    if name == "score"@ {
        assert(st.counters[name] == 0);
    }
}

/// Adding a delta to a counter and then adding its negation restores the
/// counter's original value, and leaves every other counter untouched.
pub proof fn lemma_counter_roundtrip(st: GameStateV, name: Seq<char>, d: i32)
    requires
        d != i32::MIN,
    ensures
        counter_of(
            with_counter_added(with_counter_added(st, name, d), name, (-d) as i32),
            name,
        ) == counter_of(st, name),
        forall|k: Seq<char>|
            k != name ==> counter_of(
                with_counter_added(with_counter_added(st, name, d), name, (-d) as i32),
                k,
            ) == counter_of(st, k),
{
}

/// Rebuilds the flag or counter store from persisted name-value pairs,
/// later pairs winning.
fn rebuild_store<V: Copy>(pairs: &Vec<(String, V)>) -> (r: StrMap<V>)
    ensures
        r.wf(),
        r@ == pairs_map(pairs@.map_values(|e: (String, V)| (e.0@, e.1))),
{
    let ghost pv = pairs@.map_values(|e: (String, V)| (e.0@, e.1));
    let n = pairs.len();
    let mut m: StrMap<V> = StrMap::new();
    let mut i: usize = 0;
    while i < n
        invariant
            i <= n,
            n == pairs@.len(),
            pv == pairs@.map_values(|e: (String, V)| (e.0@, e.1)),
            pv.len() == n,
            m.wf(),
            m@ == pairs_map(pv.subrange(0, i as int)),
        decreases n - i,
    {
        let entry = &pairs[i];
        m.insert(entry.0.as_str(), entry.1);
        proof {
            assert(pv.subrange(0, i + 1).drop_last() =~= pv.subrange(0, i as int));
            assert(pv.subrange(0, i + 1).last() == pv[i as int]);
            assert(pv[i as int] == (pairs@[i as int].0@, pairs@[i as int].1));
        }
        i += 1;
    }
    proof {
        assert(pv.subrange(0, n as int) =~= pv);
    }
    m
}

impl GameState {
    /// Rebuilds a play state from its persisted fields: the name, the
    /// position, and the flag and counter stores as name-value pairs,
    /// later pairs winning.
    pub fn restore(
        name: &str,
        story: &str,
        block: &str,
        flags: &Vec<(String, bool)>,
        counters: &Vec<(String, i32)>,
    ) -> (r: GameState)
        ensures
            r.wf(),
            r@.name == name@,
            r@.story == story@,
            r@.block == block@,
            r@.flags == pairs_map(flags@.map_values(|e: (String, bool)| (e.0@, e.1))),
            r@.counters == pairs_map(counters@.map_values(|e: (String, i32)| (e.0@, e.1))),
    {
        GameState {
            name: name.to_owned(),
            progress: (story.to_owned(), block.to_owned()),
            flags: rebuild_store(flags),
            counters: rebuild_store(counters),
        }
    }
}

/// Persisting a play state as its name, position and entry pairs, and
/// restoring a state from those fields, is lossless: the restored state
/// reads the same name, position, flags and counters as the original.
pub proof fn lemma_persist_roundtrip(g: GameState, r: GameState)
    requires
        r@.name == g@.name,
        r@.story == g@.story,
        r@.block == g@.block,
        r@.flags == pairs_map(g.flags.spec_pairs()),
        r@.counters == pairs_map(g.counters.spec_pairs()),
    ensures
        r@ == g@,
{
    g.flags.lemma_pairs_describe();
    g.counters.lemma_pairs_describe();
}

} // verus!
