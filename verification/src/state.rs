use vstd::prelude::*;

use crate::error::ContractError;
use crate::types::{Expiration, Scheduled};

verus! {

/// The singleton pool state. The two totals grow by bet placement; every
/// other field is fixed at initialization.
#[derive(Clone, Debug)]
pub struct State {
    /// Count of accepted bets; increments by exactly one per accepted bet.
    pub total_bets: u128,
    /// Accumulated jackpot balance: the sum of the jackpot contributions
    /// recorded at placement time. Settlement declares transfers out of it
    /// but never decrements it.
    pub total_jackpot: u128,
    pub cw20_token_address: String,
    pub community_pool_address: String,
    pub bet_start_block: Scheduled,
    pub bet_end_block: Expiration,
    pub burn_block: Expiration,
    pub bet_base_price: u128,
    pub bet_init_block: u64,
}

impl State {
    /// The configured fields: everything except the two running totals.
    pub open spec fn same_config(self, other: State) -> bool {
        &&& self.cw20_token_address == other.cw20_token_address
        &&& self.community_pool_address == other.community_pool_address
        &&& self.bet_start_block == other.bet_start_block
        &&& self.bet_end_block == other.bet_end_block
        &&& self.burn_block == other.burn_block
        &&& self.bet_base_price == other.bet_base_price
        &&& self.bet_init_block == other.bet_init_block
    }
}

/// The characters of each name in a list of names.
pub open spec fn names_of(names: Seq<String>) -> Seq<Seq<char>> {
    names.map_values(|name: String| name@)
}

/// First-match lookup in the guess index: the bettors recorded under
/// `guess`, or empty if no bucket carries that key.
pub open spec fn guess_lookup(entries: Seq<(u128, Vec<String>)>, guess: u128) -> Seq<Seq<char>>
    decreases entries.len(),
{
    if entries.len() == 0 {
        Seq::empty()
    } else if entries[0].0 == guess {
        names_of(entries[0].1@)
    } else {
        guess_lookup(entries.skip(1), guess)
    }
}

/// Whether the guess index carries a bucket for `guess`.
pub open spec fn has_guess_key(entries: Seq<(u128, Vec<String>)>, guess: u128) -> bool {
    exists|i: int| 0 <= i < entries.len() && entries[i].0 == guess
}

/// First-match lookup in the history index: the guesses recorded under the
/// bettor named by `address`, or empty if no history carries that name.
pub open spec fn address_lookup(entries: Seq<(String, Vec<u128>)>, address: Seq<char>) -> Seq<u128>
    decreases entries.len(),
{
    if entries.len() == 0 {
        Seq::empty()
    } else if entries[0].0@ == address {
        entries[0].1@
    } else {
        address_lookup(entries.skip(1), address)
    }
}

/// Whether the history index carries an entry for the bettor named by
/// `address`.
pub open spec fn has_address_key(entries: Seq<(String, Vec<u128>)>, address: Seq<char>) -> bool {
    exists|i: int| 0 <= i < entries.len() && entries[i].0@ == address
}

/// The bet registry: the two indexes the pool keeps over all placements.
/// Each index is an association list with at most one entry per key; a
/// bucket is created by the first placement under its key and appended to
/// by every later one.
pub struct BetRegistry {
    /// guess -> the bettors who placed it, in arrival order.
    pub bets: Vec<(u128, Vec<String>)>,
    /// bettor -> the guesses they placed, in arrival order.
    pub address_bets: Vec<(String, Vec<u128>)>,
}

impl BetRegistry {
    /// Well-formedness: each key occurs on at most one entry of its index.
    pub open spec fn wf(self) -> bool {
        &&& forall|i: int, j: int|
            0 <= i < j < self.bets@.len() ==> self.bets@[i].0 != self.bets@[j].0
        &&& forall|i: int, j: int|
            0 <= i < j < self.address_bets@.len() ==> self.address_bets@[i].0@
                != self.address_bets@[j].0@
    }

    /// The bettors recorded under `guess`, in arrival order.
    pub open spec fn bettors_of(self, guess: u128) -> Seq<Seq<char>> {
        guess_lookup(self.bets@, guess)
    }

    /// The guesses recorded for the bettor named by `address`, in arrival
    /// order.
    pub open spec fn bets_of(self, address: Seq<char>) -> Seq<u128> {
        address_lookup(self.address_bets@, address)
    }

    pub open spec fn has_guess(self, guess: u128) -> bool {
        has_guess_key(self.bets@, guess)
    }

    pub open spec fn has_address(self, address: Seq<char>) -> bool {
        has_address_key(self.address_bets@, address)
    }

    /// A registry with no recorded bets.
    pub fn new() -> (registry: BetRegistry)
        ensures
            registry.wf(),
            forall|g: u128| registry.bettors_of(g) == Seq::<Seq<char>>::empty(),
            forall|a: Seq<char>| registry.bets_of(a) == Seq::<u128>::empty(),
            forall|g: u128| !registry.has_guess(g),
            forall|a: Seq<char>| !registry.has_address(a),
            consistent(registry),
    {
        let registry = BetRegistry { bets: Vec::new(), address_bets: Vec::new() };
        proof {
            assert forall|g: u128, a: Seq<char>|
                #![trigger registry.bettors_of(g), registry.bets_of(a)]
                count_names(registry.bettors_of(g), a) == count_guesses(registry.bets_of(a), g) by {
                reveal(Seq::filter);
                assert(registry.bettors_of(g) == Seq::<Seq<char>>::empty());
                assert(registry.bets_of(a) == Seq::<u128>::empty());
            }
        }
        registry
    }
}

/// How many entries of the bucket `bettors` name `bettor`.
pub open spec fn count_names(bettors: Seq<Seq<char>>, bettor: Seq<char>) -> int {
    bettors.filter(|b: Seq<char>| b == bettor).len() as int
}

/// How many entries of the history `guesses` are `guess`.
pub open spec fn count_guesses(guesses: Seq<u128>, guess: u128) -> int {
    guesses.filter(|g: u128| g == guess).len() as int
}

/// The two indexes agree: every (guess, bettor) pair is recorded as many
/// times in the guess-buckets as in the bettor-histories.
pub open spec fn consistent(r: BetRegistry) -> bool {
    forall|g: u128, a: Seq<char>|
        #![trigger r.bettors_of(g), r.bets_of(a)]
        count_names(r.bettors_of(g), a) == count_guesses(r.bets_of(a), g)
}

proof fn lemma_count_names_push(bettors: Seq<Seq<char>>, pushed: Seq<char>, bettor: Seq<char>)
    ensures
        count_names(bettors.push(pushed), bettor) == count_names(bettors, bettor) + if pushed
            == bettor {
            1int
        } else {
            0int
        },
{
    reveal(Seq::filter);
    assert(bettors.push(pushed).drop_last() =~= bettors);
    assert(bettors.push(pushed).last() == pushed);
}

proof fn lemma_count_guesses_push(guesses: Seq<u128>, pushed: u128, guess: u128)
    ensures
        count_guesses(guesses.push(pushed), guess) == count_guesses(guesses, guess) + if pushed
            == guess {
            1int
        } else {
            0int
        },
{
    reveal(Seq::filter);
    assert(guesses.push(pushed).drop_last() =~= guesses);
    assert(guesses.push(pushed).last() == pushed);
}

/// Registry `r1` is registry `r0` with one placement of `guess` by the
/// bettor named `bettor` recorded: the bettor is appended to the bucket for
/// `guess`, the guess is appended to the bettor's history, and every other
/// bucket and history is unchanged.
pub open spec fn records_bet(
    r0: BetRegistry,
    r1: BetRegistry,
    guess: u128,
    bettor: Seq<char>,
) -> bool {
    &&& r1.bettors_of(guess) == r0.bettors_of(guess).push(bettor)
    &&& forall|g: u128| g != guess ==> r1.bettors_of(g) == r0.bettors_of(g)
    &&& forall|g: u128| r1.has_guess(g) == (r0.has_guess(g) || g == guess)
    &&& r1.bets_of(bettor) == r0.bets_of(bettor).push(guess)
    &&& forall|a: Seq<char>| a != bettor ==> r1.bets_of(a) == r0.bets_of(a)
    &&& forall|a: Seq<char>| r1.has_address(a) == (r0.has_address(a) || a == bettor)
}

/// Recording one placement keeps the two indexes in agreement: the pair
/// (guess, bettor) is counted once more on both sides, and every other pair
/// is counted as before.
pub proof fn lemma_records_bet_preserves_consistency(
    r0: BetRegistry,
    r1: BetRegistry,
    guess: u128,
    bettor: Seq<char>,
)
    requires
        consistent(r0),
        records_bet(r0, r1, guess, bettor),
    ensures
        consistent(r1),
{
    assert forall|g: u128, a: Seq<char>|
        #![trigger r1.bettors_of(g), r1.bets_of(a)]
        count_names(r1.bettors_of(g), a) == count_guesses(r1.bets_of(a), g) by {
        assert(count_names(r0.bettors_of(g), a) == count_guesses(r0.bets_of(a), g));
        if g == guess {
            lemma_count_names_push(r0.bettors_of(guess), bettor, a);
        }
        if a == bettor {
            lemma_count_guesses_push(r0.bets_of(bettor), guess, g);
        }
    }
}

proof fn lemma_guess_lookup_found(entries: Seq<(u128, Vec<String>)>, i: int, guess: u128)
    requires
        0 <= i < entries.len(),
        entries[i].0 == guess,
        forall|j: int| 0 <= j < i ==> entries[j].0 != guess,
    ensures
        guess_lookup(entries, guess) == names_of(entries[i].1@),
    decreases i,
{
    if i > 0 {
        assert(entries.skip(1)[i - 1] == entries[i]);
        assert forall|j: int| 0 <= j < i - 1 implies entries.skip(1)[j].0 != guess by {
            assert(entries.skip(1)[j] == entries[j + 1]);
        }
        lemma_guess_lookup_found(entries.skip(1), i - 1, guess);
    }
}

proof fn lemma_guess_lookup_absent(entries: Seq<(u128, Vec<String>)>, guess: u128)
    requires
        forall|j: int| 0 <= j < entries.len() ==> entries[j].0 != guess,
    ensures
        guess_lookup(entries, guess) == Seq::<Seq<char>>::empty(),
    decreases entries.len(),
{
    if entries.len() > 0 {
        assert forall|j: int| 0 <= j < entries.skip(1).len() implies entries.skip(1)[j].0
            != guess by {
            assert(entries.skip(1)[j] == entries[j + 1]);
        }
        lemma_guess_lookup_absent(entries.skip(1), guess);
    }
}

proof fn lemma_guess_lookup_update(entries: Seq<(u128, Vec<String>)>, i: int, v: Vec<String>)
    requires
        0 <= i < entries.len(),
        forall|j: int| 0 <= j < i ==> entries[j].0 != entries[i].0,
    ensures
        guess_lookup(entries.update(i, (entries[i].0, v)), entries[i].0) == names_of(v@),
        forall|g: u128|
            g != entries[i].0 ==> guess_lookup(entries.update(i, (entries[i].0, v)), g)
                == guess_lookup(entries, g),
    decreases i,
{
    let key = entries[i].0;
    let updated = entries.update(i, (key, v));
    if i == 0 {
        assert(updated[0] == (key, v));
        assert(updated.skip(1) =~= entries.skip(1));
        assert(guess_lookup(updated, key) == names_of(v@));
        assert forall|g: u128| g != key implies guess_lookup(updated, g) == guess_lookup(
            entries,
            g,
        ) by {
            assert(guess_lookup(updated, g) == guess_lookup(updated.skip(1), g));
            assert(guess_lookup(entries, g) == guess_lookup(entries.skip(1), g));
        }
    } else {
        assert(updated[0] == entries[0]);
        assert(entries.skip(1)[i - 1] == entries[i]);
        assert forall|j: int| 0 <= j < i - 1 implies (#[trigger] entries.skip(1)[j]).0
            != entries.skip(1)[i - 1].0 by {
            assert(entries.skip(1)[j] == entries[j + 1]);
        }
        lemma_guess_lookup_update(entries.skip(1), i - 1, v);
        assert(updated.skip(1) =~= entries.skip(1).update(i - 1, (entries.skip(1)[i - 1].0, v)));
        assert(entries[0].0 != key);
        assert(guess_lookup(updated, key) == guess_lookup(updated.skip(1), key));
        assert(guess_lookup(updated.skip(1), key) == names_of(v@));
        assert forall|g: u128| g != key implies guess_lookup(updated, g) == guess_lookup(
            entries,
            g,
        ) by {
            if updated[0].0 != g {
                assert(guess_lookup(updated, g) == guess_lookup(updated.skip(1), g));
                assert(guess_lookup(entries, g) == guess_lookup(entries.skip(1), g));
            }
        }
    }
}

proof fn lemma_guess_lookup_push(entries: Seq<(u128, Vec<String>)>, e: (u128, Vec<String>))
    requires
        forall|j: int| 0 <= j < entries.len() ==> entries[j].0 != e.0,
    ensures
        guess_lookup(entries.push(e), e.0) == names_of(e.1@),
        forall|g: u128|
            g != e.0 ==> guess_lookup(entries.push(e), g) == guess_lookup(entries, g),
    decreases entries.len(),
{
    let pushed = entries.push(e);
    if entries.len() == 0 {
        assert(pushed[0] == e);
        assert(pushed.skip(1) =~= Seq::<(u128, Vec<String>)>::empty());
        assert forall|g: u128| g != e.0 implies guess_lookup(pushed, g) == guess_lookup(
            entries,
            g,
        ) by {
            assert(guess_lookup(pushed, g) == guess_lookup(pushed.skip(1), g));
        }
    } else {
        assert(pushed[0] == entries[0]);
        assert forall|j: int| 0 <= j < entries.skip(1).len() implies entries.skip(1)[j].0
            != e.0 by {
            assert(entries.skip(1)[j] == entries[j + 1]);
        }
        lemma_guess_lookup_push(entries.skip(1), e);
        assert(pushed.skip(1) =~= entries.skip(1).push(e));
        assert(entries[0].0 != e.0);
        assert(guess_lookup(pushed, e.0) == guess_lookup(pushed.skip(1), e.0));
        assert forall|g: u128| g != e.0 implies guess_lookup(pushed, g) == guess_lookup(
            entries,
            g,
        ) by {
            if pushed[0].0 != g {
                assert(guess_lookup(pushed, g) == guess_lookup(pushed.skip(1), g));
                assert(guess_lookup(entries, g) == guess_lookup(entries.skip(1), g));
            }
        }
    }
}

proof fn lemma_address_lookup_found(entries: Seq<(String, Vec<u128>)>, i: int, address: Seq<char>)
    requires
        0 <= i < entries.len(),
        entries[i].0@ == address,
        forall|j: int| 0 <= j < i ==> entries[j].0@ != address,
    ensures
        address_lookup(entries, address) == entries[i].1@,
    decreases i,
{
    if i > 0 {
        assert(entries.skip(1)[i - 1] == entries[i]);
        assert forall|j: int| 0 <= j < i - 1 implies entries.skip(1)[j].0@ != address by {
            assert(entries.skip(1)[j] == entries[j + 1]);
        }
        lemma_address_lookup_found(entries.skip(1), i - 1, address);
    }
}

proof fn lemma_address_lookup_absent(entries: Seq<(String, Vec<u128>)>, address: Seq<char>)
    requires
        forall|j: int| 0 <= j < entries.len() ==> entries[j].0@ != address,
    ensures
        address_lookup(entries, address) == Seq::<u128>::empty(),
    decreases entries.len(),
{
    if entries.len() > 0 {
        assert forall|j: int| 0 <= j < entries.skip(1).len() implies entries.skip(1)[j].0@
            != address by {
            assert(entries.skip(1)[j] == entries[j + 1]);
        }
        lemma_address_lookup_absent(entries.skip(1), address);
    }
}

proof fn lemma_address_lookup_update(entries: Seq<(String, Vec<u128>)>, i: int, v: Vec<u128>)
    requires
        0 <= i < entries.len(),
        forall|j: int| 0 <= j < i ==> entries[j].0@ != entries[i].0@,
    ensures
        address_lookup(entries.update(i, (entries[i].0, v)), entries[i].0@) == v@,
        forall|a: Seq<char>|
            a != entries[i].0@ ==> address_lookup(entries.update(i, (entries[i].0, v)), a)
                == address_lookup(entries, a),
    decreases i,
{
    let key = entries[i].0@;
    let updated = entries.update(i, (entries[i].0, v));
    if i == 0 {
        assert(updated[0] == (entries[0].0, v));
        assert(updated.skip(1) =~= entries.skip(1));
        assert(address_lookup(updated, key) == v@);
        assert forall|a: Seq<char>| a != key implies address_lookup(updated, a) == address_lookup(
            entries,
            a,
        ) by {
            assert(address_lookup(updated, a) == address_lookup(updated.skip(1), a));
            assert(address_lookup(entries, a) == address_lookup(entries.skip(1), a));
        }
    } else {
        assert(updated[0] == entries[0]);
        assert(entries.skip(1)[i - 1] == entries[i]);
        assert forall|j: int| 0 <= j < i - 1 implies (#[trigger] entries.skip(1)[j]).0@
            != entries.skip(1)[i - 1].0@ by {
            assert(entries.skip(1)[j] == entries[j + 1]);
        }
        lemma_address_lookup_update(entries.skip(1), i - 1, v);
        assert(updated.skip(1) =~= entries.skip(1).update(i - 1, (entries.skip(1)[i - 1].0, v)));
        assert(entries[0].0@ != key);
        assert(address_lookup(updated, key) == address_lookup(updated.skip(1), key));
        assert(address_lookup(updated.skip(1), key) == v@);
        assert forall|a: Seq<char>| a != key implies address_lookup(updated, a) == address_lookup(
            entries,
            a,
        ) by {
            if updated[0].0@ != a {
                assert(address_lookup(updated, a) == address_lookup(updated.skip(1), a));
                assert(address_lookup(entries, a) == address_lookup(entries.skip(1), a));
            }
        }
    }
}

proof fn lemma_address_lookup_push(entries: Seq<(String, Vec<u128>)>, e: (String, Vec<u128>))
    requires
        forall|j: int| 0 <= j < entries.len() ==> entries[j].0@ != e.0@,
    ensures
        address_lookup(entries.push(e), e.0@) == e.1@,
        forall|a: Seq<char>|
            a != e.0@ ==> address_lookup(entries.push(e), a) == address_lookup(entries, a),
    decreases entries.len(),
{
    let pushed = entries.push(e);
    if entries.len() == 0 {
        assert(pushed[0] == e);
        assert(pushed.skip(1) =~= Seq::<(String, Vec<u128>)>::empty());
        assert forall|a: Seq<char>| a != e.0@ implies address_lookup(pushed, a) == address_lookup(
            entries,
            a,
        ) by {
            assert(address_lookup(pushed, a) == address_lookup(pushed.skip(1), a));
        }
    } else {
        assert(pushed[0] == entries[0]);
        assert forall|j: int| 0 <= j < entries.skip(1).len() implies entries.skip(1)[j].0@
            != e.0@ by {
            assert(entries.skip(1)[j] == entries[j + 1]);
        }
        lemma_address_lookup_push(entries.skip(1), e);
        assert(pushed.skip(1) =~= entries.skip(1).push(e));
        assert(entries[0].0@ != e.0@);
        assert(address_lookup(pushed, e.0@) == address_lookup(pushed.skip(1), e.0@));
        assert forall|a: Seq<char>| a != e.0@ implies address_lookup(pushed, a) == address_lookup(
            entries,
            a,
        ) by {
            if pushed[0].0@ != a {
                assert(address_lookup(pushed, a) == address_lookup(pushed.skip(1), a));
                assert(address_lookup(entries, a) == address_lookup(entries.skip(1), a));
            }
        }
    }
}

/// Appends `address` to the guess-bucket for `supply`, creating the bucket
/// if absent. The bettor-history index is untouched. Repeated calls with
/// identical arguments append duplicates by design.
pub fn save_bet(registry: &mut BetRegistry, supply: u128, address: String)
    requires
        old(registry).wf(),
    ensures
        final(registry).wf(),
        final(registry).bettors_of(supply) == old(registry).bettors_of(supply).push(address@),
        forall|g: u128|
            g != supply ==> final(registry).bettors_of(g) == old(registry).bettors_of(g),
        forall|g: u128|
            final(registry).has_guess(g) == (old(registry).has_guess(g) || g == supply),
        final(registry).address_bets == old(registry).address_bets,
{
    let ghost entries0 = registry.bets@;
    let n = registry.bets.len();
    let mut i: usize = 0;
    while i < n
        invariant
            old(registry).wf(),
            *registry == *old(registry),
            entries0 == registry.bets@,
            n == registry.bets@.len(),
            i <= n,
            forall|j: int| 0 <= j < i ==> registry.bets@[j].0 != supply,
        decreases n - i,
    {
        if registry.bets[i].0 == supply {
            let ghost old_bucket = registry.bets@[i as int].1;
            let mut bucket = registry.bets[i].1.clone();
            proof {
                assert forall|k: int| 0 <= k < old_bucket@.len() implies bucket@[k]
                    == old_bucket@[k] by {
                    assert(cloned::<String>(old_bucket@[k], bucket@[k]));
                }
                assert(bucket@ =~= old_bucket@);
            }
            bucket.push(address);
            registry.bets.set(i, (supply, bucket));
            proof {
                lemma_guess_lookup_found(entries0, i as int, supply);
                lemma_guess_lookup_update(entries0, i as int, bucket);
                assert(names_of(bucket@) =~= names_of(old_bucket@).push(address@));
                assert forall|i2: int, j2: int|
                    0 <= i2 < j2 < registry.bets@.len() implies registry.bets@[i2].0
                    != registry.bets@[j2].0 by {
                    assert(registry.bets@[i2].0 == entries0[i2].0);
                    assert(registry.bets@[j2].0 == entries0[j2].0);
                }
                assert forall|g: u128|
                    registry.has_guess(g) == (old(registry).has_guess(g) || g == supply) by {
                    assert forall|k: int| 0 <= k < entries0.len() implies registry.bets@[k].0
                        == entries0[k].0 by {}
                    if has_guess_key(registry.bets@, g) {
                        let w = choose|w: int|
                            0 <= w < registry.bets@.len() && registry.bets@[w].0 == g;
                        assert(entries0[w].0 == g);
                    }
                    if has_guess_key(entries0, g) {
                        let w = choose|w: int| 0 <= w < entries0.len() && entries0[w].0 == g;
                        assert(registry.bets@[w].0 == g);
                    }
                }
            }
            return ;
        }
        i += 1;
    }
    let mut bucket: Vec<String> = Vec::new();
    bucket.push(address);
    registry.bets.push((supply, bucket));
    proof {
        lemma_guess_lookup_absent(entries0, supply);
        lemma_guess_lookup_push(entries0, (supply, bucket));
        assert(names_of(bucket@) =~= Seq::<Seq<char>>::empty().push(address@));
        assert forall|g: u128|
            registry.has_guess(g) == (old(registry).has_guess(g) || g == supply) by {
            if has_guess_key(registry.bets@, g) && g != supply {
                let w = choose|w: int| 0 <= w < registry.bets@.len() && registry.bets@[w].0 == g;
                assert(w < entries0.len());
                assert(entries0[w].0 == g);
            }
            if has_guess_key(entries0, g) {
                let w = choose|w: int| 0 <= w < entries0.len() && entries0[w].0 == g;
                assert(registry.bets@[w].0 == g);
            }
            assert(registry.bets@[entries0.len() as int].0 == supply);
        }
        assert forall|i2: int, j2: int|
            0 <= i2 < j2 < registry.bets@.len() implies registry.bets@[i2].0
            != registry.bets@[j2].0 by {
            if j2 < entries0.len() {
            } else {
                assert(registry.bets@[j2].0 == supply);
                assert(registry.bets@[i2].0 == entries0[i2].0);
            }
        }
    }
}

/// Appends `bet` to the history of the bettor named `address`, creating the
/// history if absent. The guess index is untouched.
pub fn save_address_bet(registry: &mut BetRegistry, address: String, bet: u128)
    requires
        old(registry).wf(),
    ensures
        final(registry).wf(),
        final(registry).bets_of(address@) == old(registry).bets_of(address@).push(bet),
        forall|a: Seq<char>|
            a != address@ ==> final(registry).bets_of(a) == old(registry).bets_of(a),
        forall|a: Seq<char>|
            final(registry).has_address(a) == (old(registry).has_address(a) || a == address@),
        final(registry).bets == old(registry).bets,
{
    let ghost entries0 = registry.address_bets@;
    let n = registry.address_bets.len();
    let mut i: usize = 0;
    while i < n
        invariant
            old(registry).wf(),
            *registry == *old(registry),
            entries0 == registry.address_bets@,
            n == registry.address_bets@.len(),
            i <= n,
            forall|j: int| 0 <= j < i ==> registry.address_bets@[j].0@ != address@,
        decreases n - i,
    {
        if registry.address_bets[i].0 == address {
            let key = registry.address_bets[i].0.clone();
            let mut history = registry.address_bets[i].1.clone();
            proof {
                let old_history = registry.address_bets@[i as int].1;
                assert forall|k: int| 0 <= k < old_history@.len() implies history@[k]
                    == old_history@[k] by {
                    assert(cloned::<u128>(old_history@[k], history@[k]));
                }
                assert(history@ =~= old_history@);
            }
            history.push(bet);
            registry.address_bets.set(i, (key, history));
            proof {
                assert(registry.address_bets@ =~= entries0.update(
                    i as int,
                    (entries0[i as int].0, history),
                ));
                lemma_address_lookup_found(entries0, i as int, address@);
                lemma_address_lookup_update(entries0, i as int, history);
                assert forall|i2: int, j2: int|
                    0 <= i2 < j2 < registry.address_bets@.len() implies registry.address_bets@[i2].0@
                    != registry.address_bets@[j2].0@ by {
                    assert(registry.address_bets@[i2].0@ == entries0[i2].0@);
                    assert(registry.address_bets@[j2].0@ == entries0[j2].0@);
                }
                assert forall|a: Seq<char>|
                    registry.has_address(a) == (old(registry).has_address(a) || a == address@) by {
                    assert forall|k: int|
                        0 <= k < entries0.len() implies registry.address_bets@[k].0@
                        == entries0[k].0@ by {}
                    if has_address_key(registry.address_bets@, a) {
                        let w = choose|w: int|
                            0 <= w < registry.address_bets@.len() && registry.address_bets@[w].0@
                                == a;
                        assert(entries0[w].0@ == a);
                    }
                    if has_address_key(entries0, a) {
                        let w = choose|w: int| 0 <= w < entries0.len() && entries0[w].0@ == a;
                        assert(registry.address_bets@[w].0@ == a);
                    }
                }
            }
            return ;
        }
        i += 1;
    }
    let mut history: Vec<u128> = Vec::new();
    history.push(bet);
    registry.address_bets.push((address, history));
    proof {
        lemma_address_lookup_absent(entries0, address@);
        lemma_address_lookup_push(entries0, (registry.address_bets@[entries0.len() as int].0, history));
        assert(registry.address_bets@ =~= entries0.push(
            (registry.address_bets@[entries0.len() as int].0, history),
        ));
        assert(Seq::<u128>::empty().push(bet) =~= history@);
        assert forall|a: Seq<char>|
            registry.has_address(a) == (old(registry).has_address(a) || a == address@) by {
            if has_address_key(registry.address_bets@, a) && a != address@ {
                let w = choose|w: int|
                    0 <= w < registry.address_bets@.len() && registry.address_bets@[w].0@ == a;
                assert(w < entries0.len());
                assert(entries0[w].0@ == a);
            }
            if has_address_key(entries0, a) {
                let w = choose|w: int| 0 <= w < entries0.len() && entries0[w].0@ == a;
                assert(registry.address_bets@[w].0@ == a);
            }
            assert(registry.address_bets@[entries0.len() as int].0@ == address@);
        }
        assert forall|i2: int, j2: int|
            0 <= i2 < j2 < registry.address_bets@.len() implies registry.address_bets@[i2].0@
            != registry.address_bets@[j2].0@ by {
            if j2 < entries0.len() {
            } else {
                assert(registry.address_bets@[j2].0@ == address@);
                assert(registry.address_bets@[i2].0@ == entries0[i2].0@);
            }
        }
    }
}

/// Reads the guess-bucket for `supply`; an absent key reads as a store
/// failure, as the underlying load would.
pub fn read_bet(registry: &BetRegistry, supply: u128) -> (bettors: Result<Vec<String>, ContractError>)
    ensures
        match bettors {
            Ok(v) => registry.has_guess(supply) && names_of(v@) == registry.bettors_of(supply),
            Err(e) => !registry.has_guess(supply) && e == ContractError::StorageFailure,
        },
{
    let n = registry.bets.len();
    let mut i: usize = 0;
    while i < n
        invariant
            n == registry.bets@.len(),
            i <= n,
            forall|j: int| 0 <= j < i ==> registry.bets@[j].0 != supply,
        decreases n - i,
    {
        if registry.bets[i].0 == supply {
            let out = registry.bets[i].1.clone();
            proof {
                let bucket = registry.bets@[i as int].1;
                assert forall|k: int| 0 <= k < bucket@.len() implies out@[k] == bucket@[k] by {
                    assert(cloned::<String>(bucket@[k], out@[k]));
                }
                assert(out@ =~= bucket@);
                lemma_guess_lookup_found(registry.bets@, i as int, supply);
            }
            return Ok(out);
        }
        i += 1;
    }
    Err(ContractError::StorageFailure)
}

/// The guess-bucket for `key`, or empty if no bet was placed on it. This is
/// the settlement-time read: an absent winning key means no winners.
pub fn winners_for(registry: &BetRegistry, key: u128) -> (winners: Vec<String>)
    ensures
        names_of(winners@) == registry.bettors_of(key),
{
    let n = registry.bets.len();
    let mut i: usize = 0;
    while i < n
        invariant
            n == registry.bets@.len(),
            i <= n,
            forall|j: int| 0 <= j < i ==> registry.bets@[j].0 != key,
        decreases n - i,
    {
        if registry.bets[i].0 == key {
            let out = registry.bets[i].1.clone();
            proof {
                let bucket = registry.bets@[i as int].1;
                assert forall|k: int| 0 <= k < bucket@.len() implies out@[k] == bucket@[k] by {
                    assert(cloned::<String>(bucket@[k], out@[k]));
                }
                assert(out@ =~= bucket@);
                lemma_guess_lookup_found(registry.bets@, i as int, key);
            }
            return out;
        }
        i += 1;
    }
    proof {
        lemma_guess_lookup_absent(registry.bets@, key);
        assert(names_of(Seq::<String>::empty()) =~= Seq::<Seq<char>>::empty());
    }
    Vec::new()
}

/// Reads the history of the bettor named `address`; a bettor with no
/// recorded bet reads as a store failure, as the underlying load would.
pub fn read_address_bet(registry: &BetRegistry, address: String) -> (bets: Result<
    Vec<u128>,
    ContractError,
>)
    ensures
        match bets {
            Ok(v) => registry.has_address(address@) && v@ == registry.bets_of(address@),
            Err(e) => !registry.has_address(address@) && e == ContractError::StorageFailure,
        },
{
    let n = registry.address_bets.len();
    let mut i: usize = 0;
    while i < n
        invariant
            n == registry.address_bets@.len(),
            i <= n,
            forall|j: int| 0 <= j < i ==> registry.address_bets@[j].0@ != address@,
        decreases n - i,
    {
        if registry.address_bets[i].0 == address {
            let out = registry.address_bets[i].1.clone();
            proof {
                let history = registry.address_bets@[i as int].1;
                assert forall|k: int| 0 <= k < history@.len() implies out@[k] == history@[k] by {
                    assert(cloned::<u128>(history@[k], out@[k]));
                }
                assert(out@ =~= history@);
                lemma_address_lookup_found(registry.address_bets@, i as int, address@);
            }
            return Ok(out);
        }
        i += 1;
    }
    Err(ContractError::StorageFailure)
}

} // verus!
