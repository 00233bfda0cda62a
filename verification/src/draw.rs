//! The random draw of distinct Pokémon that fills a poll: each draw picks a
//! standard Pokémon at random, skips one already drawn, and keeps one move
//! set, chosen at random, of one of its strategies.

use vstd::prelude::*;
use rand::Rng;
use crate::text::{dex_name, dex_name_of};

verus! {

#[verifier::external_type_specification]
#[verifier::external_body]
pub struct ExThreadRng(rand::rngs::ThreadRng);

/// The random number generator of the current thread, from
/// `rand::thread_rng`.
///
/// Trusted: nothing is claimed of the generator's state.
#[verifier::external_body]
fn thread_rng() -> rand::rngs::ThreadRng {
    rand::thread_rng()
}

/// A number drawn at random below `len`, from `Rng::gen_range(0..len)`.
///
/// Trusted: `gen_range` returns a value of the range it is given, and
/// panics only on an empty range, which `requires` leaves out. Which value
/// comes back depends on chance and is not stated.
#[verifier::external_body]
fn gen_index(rng: &mut rand::rngs::ThreadRng, len: usize) -> (i: usize)
    requires
        len > 0,
    ensures
        i < len,
{
    rng.gen_range(0..len)
}

/// A Pokémon as the dex lists it among the basics of a generation: its name
/// and its standing in the standard formats.
pub struct BasicPokemon {
    pub name: String,
    pub is_non_standard: String,
}

/// The standing of a Pokémon that may be played in the standard formats.
pub open spec fn standard_label() -> Seq<char> {
    seq!['S', 't', 'a', 'n', 'd', 'a', 'r', 'd']
}

/// The names, in order, of the Pokémon of `list` that are standard.
pub open spec fn standard_names_of(list: Seq<BasicPokemon>) -> Seq<Seq<char>>
    decreases list.len(),
{
    if list.len() == 0 {
        Seq::empty()
    } else {
        let before = standard_names_of(list.drop_last());
        if list.last().is_non_standard@ == standard_label() {
            before.push(list.last().name@)
        } else {
            before
        }
    }
}

/// The names of the standard Pokémon of `list`, in order.
pub fn standard_names(list: &Vec<BasicPokemon>) -> (r: Vec<String>)
    ensures
        r@.map_values(|s: String| s@) == standard_names_of(list@),
{
    let standard = String::from_str("Standard");
    proof {
        reveal_strlit("Standard");
        assert(standard@ =~= standard_label());
    }
    let mut names: Vec<String> = Vec::new();
    let n = list.len();
    let mut i: usize = 0;
    assert(list@.take(0) =~= Seq::<BasicPokemon>::empty());
    while i < n
        invariant
            n == list@.len(),
            i <= n,
            standard@ == standard_label(),
            names@.map_values(|s: String| s@) == standard_names_of(list@.take(i as int)),
        decreases n - i,
    {
        assert(list@.take(i + 1).drop_last() =~= list@.take(i as int));
        assert(list@.take(i + 1).last() == list@[i as int]);
        if list[i].is_non_standard == standard {
            let ghost before = names@.map_values(|s: String| s@);
            names.push(list[i].name.clone());
            assert(names@.map_values(|s: String| s@) =~= before.push(list@[i as int].name@));
        }
        i = i + 1;
    }
    assert(list@.take(n as int) =~= list@);
    names
}

/// `names` are the names of exactly those Pokémon of `list` whose standing
/// is "Standard", in list order: `names[k]` is the name of the Pokémon at
/// position `at[k]`, the positions rise, and every standard Pokémon's
/// position is among them.
pub open spec fn names_standard_pokemon_at(
    list: Seq<BasicPokemon>,
    names: Seq<Seq<char>>,
    at: Seq<int>,
) -> bool {
    &&& at.len() == names.len()
    &&& forall|k: int|
        0 <= k < at.len() ==> 0 <= #[trigger] at[k] < list.len() && names[k] == list[at[k]].name@
            && list[at[k]].is_non_standard@ == seq!['S', 't', 'a', 'n', 'd', 'a', 'r', 'd']
    &&& forall|k: int, l: int| 0 <= k < l < at.len() ==> #[trigger] at[k] < #[trigger] at[l]
    &&& forall|j: int|
        0 <= j < list.len() && (#[trigger] list[j]).is_non_standard@ == seq![
            'S',
            't',
            'a',
            'n',
            'd',
            'a',
            'r',
            'd',
        ] ==> exists|k: int| 0 <= k < at.len() && at[k] == j
}

proof fn standard_positions(list: Seq<BasicPokemon>) -> (at: Seq<int>)
    ensures
        names_standard_pokemon_at(list, standard_names_of(list), at),
    decreases list.len(),
{
    if list.len() == 0 {
        Seq::empty()
    } else {
        let d = list.drop_last();
        let before = standard_positions(d);
        let names = standard_names_of(list);
        let n = list.len() - 1;
        assert forall|j: int| 0 <= j < d.len() implies #[trigger] d[j] == list[j] by {}
        if list.last().is_non_standard@ == standard_label() {
            let at = before.push(n);
            assert forall|k: int| 0 <= k < at.len() implies 0 <= #[trigger] at[k] < list.len()
                && names[k] == list[at[k]].name@ && list[at[k]].is_non_standard@ == seq![
                'S',
                't',
                'a',
                'n',
                'd',
                'a',
                'r',
                'd',
            ] by {
                if k < before.len() {
                    assert(at[k] == before[k]);
                    assert(d[before[k]] == list[before[k]]);
                }
            }
            assert forall|j: int|
                0 <= j < list.len() && (#[trigger] list[j]).is_non_standard@ == seq![
                    'S',
                    't',
                    'a',
                    'n',
                    'd',
                    'a',
                    'r',
                    'd',
                ] implies exists|k: int| 0 <= k < at.len() && at[k] == j by {
                if j < n {
                    assert(d[j] == list[j]);
                    let k = choose|k: int| 0 <= k < before.len() && before[k] == j;
                    assert(at[k] == j);
                } else {
                    assert(at[at.len() - 1] == j);
                }
            }
            at
        } else {
            assert forall|k: int| 0 <= k < before.len() implies 0 <= #[trigger] before[k] < list.len()
                && names[k] == list[before[k]].name@ && list[before[k]].is_non_standard@ == seq![
                'S',
                't',
                'a',
                'n',
                'd',
                'a',
                'r',
                'd',
            ] by {
                assert(d[before[k]] == list[before[k]]);
            }
            assert forall|j: int|
                0 <= j < list.len() && (#[trigger] list[j]).is_non_standard@ == seq![
                    'S',
                    't',
                    'a',
                    'n',
                    'd',
                    'a',
                    'r',
                    'd',
                ] implies exists|k: int| 0 <= k < before.len() && before[k] == j by {
                if j < n {
                    assert(d[j] == list[j]);
                } else {
                    assert(list[j] == list.last());
                    assert(seq!['S', 't', 'a', 'n', 'd', 'a', 'r', 'd'] =~= standard_label());
                }
            }
            before
        }
    }
}

/// The pool of a draw, like the result of `standard_names`, holds the names
/// of exactly the Pokémon of the list whose standing is "Standard", each
/// once, in list order.
pub proof fn law_pool_is_the_standard_pokemon(list: Seq<BasicPokemon>)
    ensures
        exists|at: Seq<int>| names_standard_pokemon_at(list, standard_names_of(list), at),
{
    let at = standard_positions(list);
}

/// The candidate at a position of the pool is offered exactly when the dex
/// name of the Pokémon there was not drawn yet, and it is that dex name; so
/// every candidate offered may be taken.
pub proof fn law_candidate_is_a_fresh_dex_name<T>(d: DrawView<T>, index: int)
    requires
        0 <= index < d.pool.len(),
    ensures
        (candidate_of(d, index) is None) <==> d.names.contains(dex_name_of(d.pool[index])),
        candidate_of(d, index) is Some ==> candidate_of(d, index) == Some(
            dex_name_of(d.pool[index]),
        ),
{
}

/// Whether `names` holds `name`.
fn holds(names: &Vec<String>, name: &String) -> (r: bool)
    ensures
        r == names@.map_values(|s: String| s@).contains(name@),
{
    let ghost v = names@.map_values(|s: String| s@);
    let n = names.len();
    let mut i: usize = 0;
    while i < n
        invariant
            n == names@.len(),
            v == names@.map_values(|s: String| s@),
            i <= n,
            forall|j: int| 0 <= j < i ==> v[j] != name@,
        decreases n - i,
    {
        if names[i] == *name {
            assert(v[i as int] == name@);
            return true;
        }
        i = i + 1;
    }
    false
}

/// What a draw holds: how many Pokémon it wants, the names of the standard
/// Pokémon it draws from, the dex names of those drawn so far and the move
/// set kept for each, in the order drawn.
pub struct DrawView<T> {
    pub count: nat,
    pub pool: Seq<Seq<char>>,
    pub names: Seq<Seq<char>>,
    pub sets: Seq<T>,
}

/// `name` is the dex name of one of the Pokémon of `pool`.
pub open spec fn drawn_from(pool: Seq<Seq<char>>, name: Seq<char>) -> bool {
    exists|i: int| 0 <= i < pool.len() && name == dex_name_of(#[trigger] pool[i])
}

/// What the Pokémon at `index` of the pool gives when drawn: its dex name,
/// unless it was drawn already.
pub open spec fn candidate_of<T>(d: DrawView<T>, index: int) -> Option<Seq<char>> {
    if d.names.contains(dex_name_of(d.pool[index])) {
        None
    } else {
        Some(dex_name_of(d.pool[index]))
    }
}

/// The draw after the Pokémon at `index` of the pool is kept with move set
/// `set` of strategy `strategy`, or as it was when that strategy has no
/// move sets.
pub open spec fn after_take<T>(
    d: DrawView<T>,
    index: int,
    strategies: Seq<Vec<T>>,
    strategy: int,
    set: int,
) -> DrawView<T> {
    if strategies[strategy]@.len() == 0 {
        d
    } else {
        DrawView {
            names: d.names.push(dex_name_of(d.pool[index])),
            sets: d.sets.push(strategies[strategy]@[set]),
            ..d
        }
    }
}

/// A draw of `count` distinct Pokémon in progress.
pub struct PokemonDraw<T> {
    count: usize,
    pool: Vec<String>,
    names: Vec<String>,
    sets: Vec<T>,
}

impl<T> View for PokemonDraw<T> {
    type V = DrawView<T>;

    closed spec fn view(&self) -> DrawView<T> {
        DrawView {
            count: self.count as nat,
            pool: self.pool@.map_values(|s: String| s@),
            names: self.names@.map_values(|s: String| s@),
            sets: self.sets@,
        }
    }
}

/// Every name drawn is the dex name of a Pokémon of the pool and is drawn
/// at most once, one move set is kept for each name, and never more than
/// the draw wants.
pub open spec fn draw_consistent<T>(d: DrawView<T>) -> bool {
    &&& d.names.no_duplicates()
    &&& forall|k: int| 0 <= k < d.names.len() ==> drawn_from(d.pool, #[trigger] d.names[k])
    &&& d.names.len() == d.sets.len()
    &&& d.sets.len() <= d.count
}

impl<T> PokemonDraw<T> {
    #[verifier::type_invariant]
    spec fn consistent(self) -> bool {
        draw_consistent(self@)
    }

    /// A draw of `count` Pokémon from the standard Pokémon of `list`, with
    /// none drawn yet.
    pub fn new(count: usize, list: &Vec<BasicPokemon>) -> (d: Self)
        ensures
            d@.count == count,
            d@.pool == standard_names_of(list@),
            d@.names == Seq::<Seq<char>>::empty(),
            d@.sets == Seq::<T>::empty(),
    {
        let d = PokemonDraw { count, pool: standard_names(list), names: Vec::new(), sets: Vec::new() };
        assert(d@.names =~= Seq::<Seq<char>>::empty());
        d
    }

    /// How many standard Pokémon the draw picks from.
    pub fn pool_size(&self) -> (n: usize)
        ensures
            n == self@.pool.len(),
    {
        self.pool.len()
    }

    /// Whether the draw has as many Pokémon as it wants.
    pub fn is_done(&self) -> (r: bool)
        ensures
            r == (self@.sets.len() == self@.count),
            draw_consistent(self@),
    {
        proof {
            use_type_invariant(self);
        }
        self.sets.len() >= self.count
    }

    /// The Pokémon that the pool's name at `index` stands for, unless it was
    /// drawn already.
    pub fn candidate(&self, index: usize) -> (r: Option<String>)
        requires
            index < self@.pool.len(),
        ensures
            match r {
                Some(name) => candidate_of(self@, index as int) == Some(name@),
                None => candidate_of(self@, index as int) is None,
            },
    {
        let name = dex_name(self.pool[index].as_str());
        if holds(&self.names, &name) {
            None
        } else {
            Some(name)
        }
    }

    /// Picks a position of the pool at random, and gives it with the
    /// Pokémon it stands for, unless that was drawn already.
    pub fn draw_candidate(&self) -> (r: (usize, Option<String>))
        requires
            self@.pool.len() > 0,
        ensures
            r.0 < self@.pool.len(),
            match r.1 {
                Some(name) => candidate_of(self@, r.0 as int) == Some(name@),
                None => candidate_of(self@, r.0 as int) is None,
            },
    {
        let mut rng = thread_rng();
        let i = gen_index(&mut rng, self.pool.len());
        (i, self.candidate(i))
    }

    /// Keeps move set `set` of strategy `strategy` of `strategies` for the
    /// Pokémon at `index` of the pool, which was not drawn yet, in a draw
    /// that wants more; keeps nothing when that strategy has no move sets.
    pub fn take(
        &mut self,
        index: usize,
        strategies: Vec<Vec<T>>,
        strategy: usize,
        set: usize,
    )
        requires
            index < old(self)@.pool.len(),
            !old(self)@.names.contains(dex_name_of(old(self)@.pool[index as int])),
            old(self)@.sets.len() < old(self)@.count,
            strategy < strategies@.len(),
            strategies@[strategy as int]@.len() > 0 ==> set < strategies@[strategy as int]@.len(),
        ensures
            final(self)@ == after_take(
                old(self)@,
                index as int,
                strategies@,
                strategy as int,
                set as int,
            ),
    {
        proof {
            use_type_invariant(&*self);
        }
        let mut strategies = strategies;
        let ghost all = strategies@;
        let mut sets = strategies.swap_remove(strategy);
        assert(sets == all[strategy as int]);
        if sets.len() == 0 {
            return;
        }
        let name = dex_name(self.pool[index].as_str());
        let mut taken = PokemonDraw { count: self.count, pool: Vec::new(), names: Vec::new(), sets: Vec::new() };
        assert(taken@.names =~= Seq::<Seq<char>>::empty());
        std::mem::swap(&mut taken, self);
        let PokemonDraw { count, pool, mut names, sets: mut kept } = taken;
        let ghost before = names@.map_values(|s: String| s@);
        let ghost key = name@;
        let ghost p = pool@.map_values(|s: String| s@);
        names.push(name);
        kept.push(sets.swap_remove(set));
        assert(names@.map_values(|s: String| s@) =~= before.push(key));
        assert(p[index as int] == pool@[index as int]@);
        assert(drawn_from(p, key));
        assert forall|k: int| 0 <= k < before.len() + 1 implies drawn_from(
            p,
            #[trigger] before.push(key)[k],
        ) by {
            if k < before.len() {
                assert(before.push(key)[k] == before[k]);
            }
        }
        *self = PokemonDraw { count, pool, names, sets: kept };
    }

    /// Takes in what the dex answered for the Pokémon at `index` of the
    /// pool, which was not drawn yet: nothing when the lookup failed, else
    /// the move sets of each of its strategies. Picks a strategy at random
    /// and, when it has move sets, keeps one of them, again at random.
    pub fn accept(&mut self, index: usize, fetched: Option<Vec<Vec<T>>>)
        requires
            index < old(self)@.pool.len(),
            !old(self)@.names.contains(dex_name_of(old(self)@.pool[index as int])),
            old(self)@.sets.len() < old(self)@.count,
        ensures
            fetched is None ==> final(self)@ == old(self)@,
            fetched is Some && fetched->0@.len() == 0 ==> final(self)@ == old(self)@,
            fetched is Some && fetched->0@.len() > 0 ==> exists|strategy: int, set: int|
                0 <= strategy < fetched->0@.len() && (fetched->0@[strategy]@.len() > 0 ==> 0 <= set
                    < fetched->0@[strategy]@.len()) && final(self)@ == #[trigger] after_take(
                    old(self)@,
                    index as int,
                    fetched->0@,
                    strategy,
                    set,
                ),
    {
        match fetched {
            None => {},
            Some(strategies) => {
                if strategies.len() > 0 {
                    let mut rng = thread_rng();
                    let strategy = gen_index(&mut rng, strategies.len());
                    let set = if strategies[strategy].len() > 0 {
                        gen_index(&mut rng, strategies[strategy].len())
                    } else {
                        0
                    };
                    self.take(index, strategies, strategy, set);
                }
            },
        }
    }

    /// The move sets kept, one per Pokémon drawn, in the order drawn.
    pub fn into_sets(self) -> (r: Vec<T>)
        ensures
            r@ == self@.sets,
            draw_consistent(self@),
    {
        proof {
            use_type_invariant(&self);
        }
        self.sets
    }
}

} // verus!
