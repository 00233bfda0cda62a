//! The ballot of a poll: which option each voter last chose, how many votes
//! each option has, and which option leads.

use vstd::prelude::*;

verus! {

/// A ballot held as (voter, option) pairs.
pub type Ballot = Seq<(Seq<char>, usize)>;

/// The map from voter to option that a ballot records; a later pair for the
/// same voter stands over an earlier one.
pub open spec fn ballot_map(s: Ballot) -> Map<Seq<char>, usize>
    decreases s.len(),
{
    if s.len() == 0 {
        Map::empty()
    } else {
        ballot_map(s.drop_last()).insert(s.last().0, s.last().1)
    }
}

/// No voter stands twice in the ballot.
pub open spec fn distinct_voters(s: Ballot) -> bool {
    forall|i: int, j: int| 0 <= i < j < s.len() ==> s[i].0 != s[j].0
}

/// The voters who chose `option`.
pub open spec fn voters_for(votes: Map<Seq<char>, usize>, option: int) -> Set<Seq<char>> {
    votes.dom().filter(|u: Seq<char>| votes[u] == option)
}

/// How many voters chose `option`.
pub open spec fn votes_for(votes: Map<Seq<char>, usize>, option: int) -> nat {
    voters_for(votes, option).len()
}

/// The number of votes of each of the first `n` options.
pub open spec fn tally(votes: Map<Seq<char>, usize>, n: nat) -> Seq<nat> {
    Seq::new(n, |i: int| votes_for(votes, i))
}

/// Option `w` has the most votes, and every option before it has fewer.
pub open spec fn leads(t: Seq<nat>, w: int) -> bool {
    &&& 0 <= w < t.len()
    &&& forall|i: int| 0 <= i < t.len() ==> t[i] <= t[w]
    &&& forall|i: int| 0 <= i < w ==> t[i] < t[w]
}

/// The option that wins a count: the first of those with the most votes.
pub open spec fn winner(t: Seq<nat>) -> int {
    choose|w: int| leads(t, w)
}

/// Every vote names one of the first `n` options.
pub open spec fn votes_within(votes: Map<Seq<char>, usize>, n: nat) -> bool {
    forall|u: Seq<char>| #[trigger] votes.dom().contains(u) ==> votes[u] < n
}

/// How many pairs of a ballot name `option`.
spec fn count_in(s: Ballot, option: int) -> nat
    decreases s.len(),
{
    if s.len() == 0 {
        0
    } else {
        count_in(s.drop_last(), option) + if s.last().1 == option {
            1nat
        } else {
            0nat
        }
    }
}

proof fn lemma_ballot_dom(s: Ballot)
    ensures
        ballot_map(s).dom().finite(),
        forall|k: Seq<char>|
            ballot_map(s).dom().contains(k) <==> exists|i: int|
                0 <= i < s.len() && #[trigger] s[i].0 == k,
    decreases s.len(),
{
    if s.len() > 0 {
        let d = s.drop_last();
        lemma_ballot_dom(d);
        assert forall|k: Seq<char>| ballot_map(s).dom().contains(k) implies exists|i: int|
            0 <= i < s.len() && #[trigger] s[i].0 == k by {
            if k == s.last().0 {
                assert(s[s.len() - 1].0 == k);
            } else {
                let i = choose|i: int| 0 <= i < d.len() && #[trigger] d[i].0 == k;
                assert(s[i] == d[i]);
            }
        }
        assert forall|k: Seq<char>|
            (exists|i: int| 0 <= i < s.len() && #[trigger] s[i].0 == k) implies ballot_map(
            s,
        ).dom().contains(k) by {
            let i = choose|i: int| 0 <= i < s.len() && #[trigger] s[i].0 == k;
            if i < s.len() - 1 {
                assert(d[i] == s[i]);
            }
        }
    }
}

proof fn lemma_ballot_at(s: Ballot, i: int)
    requires
        distinct_voters(s),
        0 <= i < s.len(),
    ensures
        ballot_map(s).dom().contains(s[i].0),
        ballot_map(s)[s[i].0] == s[i].1,
    decreases s.len(),
{
    let d = s.drop_last();
    if i < s.len() - 1 {
        assert(d[i] == s[i]);
        lemma_ballot_at(d, i);
    }
}

proof fn lemma_ballot_update(s: Ballot, i: int, v: usize)
    requires
        distinct_voters(s),
        0 <= i < s.len(),
    ensures
        ballot_map(s.update(i, (s[i].0, v))) == ballot_map(s).insert(s[i].0, v),
    decreases s.len(),
{
    let t = s.update(i, (s[i].0, v));
    let d = s.drop_last();
    if i == s.len() - 1 {
        assert(t.drop_last() =~= d);
        assert(ballot_map(t) =~= ballot_map(s).insert(s[i].0, v));
    } else {
        assert(t.drop_last() =~= d.update(i, (d[i].0, v)));
        lemma_ballot_update(d, i, v);
        assert(s[i].0 != s.last().0);
        assert(ballot_map(t) =~= ballot_map(s).insert(s[i].0, v));
    }
}

proof fn lemma_ballot_len(s: Ballot)
    requires
        distinct_voters(s),
    ensures
        ballot_map(s).dom().len() == s.len(),
    decreases s.len(),
{
    if s.len() > 0 {
        let d = s.drop_last();
        lemma_ballot_len(d);
        lemma_ballot_dom(d);
        if ballot_map(d).dom().contains(s.last().0) {
            let i = choose|i: int| 0 <= i < d.len() && #[trigger] d[i].0 == s.last().0;
            assert(s[i] == d[i]);
        }
    }
}

proof fn lemma_count_in(s: Ballot, option: int)
    requires
        distinct_voters(s),
    ensures
        count_in(s, option) == votes_for(ballot_map(s), option),
    decreases s.len(),
{
    let m = ballot_map(s);
    lemma_ballot_dom(s);
    if s.len() == 0 {
        assert(voters_for(m, option) =~= Set::empty());
    } else {
        let d = s.drop_last();
        let md = ballot_map(d);
        lemma_count_in(d, option);
        lemma_ballot_dom(d);
        let k = s.last().0;
        if md.dom().contains(k) {
            let i = choose|i: int| 0 <= i < d.len() && #[trigger] d[i].0 == k;
            assert(s[i] == d[i]);
        }
        let fd = voters_for(md, option);
        let f = voters_for(m, option);
        assert(!md.dom().contains(k));
        assert(fd.finite()) by {
            vstd::set_lib::lemma_set_subset_finite(md.dom(), fd);
        }
        assert(!fd.contains(k));
        assert(count_in(s, option) == count_in(d, option) + if s.last().1 == option {
            1nat
        } else {
            0nat
        });
        if s.last().1 == option {
            assert(f =~= fd.insert(k));
            assert(f.len() == fd.len() + 1);
        } else {
            assert(f =~= fd);
        }
    }
}

/// Who voted for which option; each voter stands once.
pub struct VoteBook {
    entries: Vec<(String, usize)>,
}

/// The ballot that a list of (voter, option) pairs holds.
pub open spec fn ballot_of(entries: Seq<(String, usize)>) -> Ballot {
    entries.map_values(|e: (String, usize)| (e.0@, e.1))
}

impl View for VoteBook {
    type V = Map<Seq<char>, usize>;

    closed spec fn view(&self) -> Map<Seq<char>, usize> {
        ballot_map(ballot_of(self.entries@))
    }
}

impl VoteBook {
    #[verifier::type_invariant]
    spec fn each_voter_once(self) -> bool {
        distinct_voters(ballot_of(self.entries@))
    }

    /// A ballot with no votes.
    pub fn new() -> (b: Self)
        ensures
            b@ == Map::<Seq<char>, usize>::empty(),
    {
        let b = VoteBook { entries: Vec::new() };
        assert(ballot_of(b.entries@) =~= Seq::<(Seq<char>, usize)>::empty());
        b
    }

    /// The option that `voter` chose, if they voted.
    pub fn get(&self, voter: &str) -> (r: Option<usize>)
        ensures
            r == (if self@.dom().contains(voter@) {
                Some(self@[voter@])
            } else {
                None
            }),
    {
        proof {
            use_type_invariant(self);
            lemma_ballot_dom(ballot_of(self.entries@));
        }
        let key = String::from_str(voter);
        let n = self.entries.len();
        let mut i: usize = 0;
        while i < n
            invariant
                n == self.entries@.len(),
                i <= n,
                key@ == voter@,
                distinct_voters(ballot_of(self.entries@)),
                forall|j: int| 0 <= j < i ==> ballot_of(self.entries@)[j].0 != voter@,
            decreases n - i,
        {
            if self.entries[i].0 == key {
                proof {
                    lemma_ballot_at(ballot_of(self.entries@), i as int);
                }
                return Some(self.entries[i].1);
            }
            i = i + 1;
        }
        None
    }

    /// Records that `voter` chose `option`, in place of any earlier choice.
    pub fn set(&mut self, voter: String, option: usize)
        ensures
            final(self)@ == old(self)@.insert(voter@, option),
    {
        proof {
            use_type_invariant(&*self);
        }
        let mut entries: Vec<(String, usize)> = Vec::new();
        std::mem::swap(&mut entries, &mut self.entries);
        let ghost before = ballot_of(entries@);
        proof {
            lemma_ballot_dom(before);
        }
        let n = entries.len();
        let mut i: usize = 0;
        let mut found = false;
        while i < n && !found
            invariant
                n == entries@.len(),
                before == ballot_of(entries@),
                distinct_voters(before),
                i <= n,
                found ==> i < n && before[i as int].0 == voter@,
                forall|j: int| 0 <= j < i ==> before[j].0 != voter@,
            decreases n - i + if found { 0int } else { 1int },
        {
            if entries[i].0 == voter {
                found = true;
            } else {
                i = i + 1;
            }
        }
        let ghost key = voter@;
        if found {
            proof {
                lemma_ballot_update(before, i as int, option);
            }
            entries.set(i, (voter, option));
            assert(ballot_of(entries@) =~= before.update(i as int, (before[i as int].0, option)));
            assert(distinct_voters(ballot_of(entries@)));
        } else {
            entries.push((voter, option));
            assert(ballot_of(entries@).drop_last() =~= before);
            assert(ballot_of(entries@).last() == (key, option));
            assert forall|a: int, b: int| 0 <= a < b < ballot_of(entries@).len() implies ballot_of(
                entries@,
            )[a].0 != ballot_of(entries@)[b].0 by {
                if b < n {
                    assert(ballot_of(entries@)[a] == before[a]);
                    assert(ballot_of(entries@)[b] == before[b]);
                } else {
                    assert(ballot_of(entries@)[a] == before[a]);
                }
            }
        }
        self.entries = entries;
    }

    /// Forgets every vote.
    pub fn clear(&mut self)
        ensures
            final(self)@ == Map::<Seq<char>, usize>::empty(),
    {
        self.entries = Vec::new();
        assert(ballot_of(self.entries@) =~= Seq::<(Seq<char>, usize)>::empty());
    }

    /// Whether every vote names one of the first `n` options.
    pub fn all_below(&self, n: usize) -> (r: bool)
        ensures
            r == votes_within(self@, n as nat),
    {
        proof {
            use_type_invariant(self);
            lemma_ballot_dom(ballot_of(self.entries@));
        }
        let ghost s = ballot_of(self.entries@);
        let len = self.entries.len();
        let mut i: usize = 0;
        while i < len
            invariant
                len == s.len(),
                s == ballot_of(self.entries@),
                distinct_voters(s),
                i <= len,
                forall|j: int| 0 <= j < i ==> s[j].1 < n,
            decreases len - i,
        {
            if self.entries[i].1 >= n {
                proof {
                    lemma_ballot_at(s, i as int);
                }
                return false;
            }
            i = i + 1;
        }
        assert forall|u: Seq<char>| #[trigger] self@.dom().contains(u) implies self@[u] < n by {
            let j = choose|j: int| 0 <= j < s.len() && #[trigger] s[j].0 == u;
            lemma_ballot_at(s, j);
        }
        true
    }

    /// How many voters there are.
    pub fn len(&self) -> (n: usize)
        ensures
            n == self@.dom().len(),
    {
        proof {
            use_type_invariant(self);
            lemma_ballot_len(ballot_of(self.entries@));
        }
        self.entries.len()
    }

    /// The number of votes of each of the first `n` options, when every
    /// vote names one of them.
    pub fn tally(&self, n: usize) -> (counts: Vec<usize>)
        requires
            votes_within(self@, n as nat),
        ensures
            counts@.len() == n,
            forall|i: int| 0 <= i < n ==> counts@[i] == votes_for(self@, i),
    {
        proof {
            use_type_invariant(self);
        }
        let ghost s = ballot_of(self.entries@);
        let mut counts: Vec<usize> = Vec::new();
        let mut i: usize = 0;
        while i < n
            invariant
                i <= n,
                counts@.len() == i,
                forall|j: int| 0 <= j < i ==> counts@[j] == 0,
            decreases n - i,
        {
            counts.push(0);
            i = i + 1;
        }
        let len = self.entries.len();
        let mut k: usize = 0;
        assert(s.take(0) =~= Seq::<(Seq<char>, usize)>::empty());
        while k < len
            invariant
                len == s.len(),
                s == ballot_of(self.entries@),
                distinct_voters(s),
                votes_within(ballot_map(s), n as nat),
                k <= len,
                counts@.len() == n,
                forall|j: int| 0 <= j < n ==> counts@[j] == count_in(#[trigger] s.take(k as int), j),
                forall|j: int| 0 <= j < n ==> counts@[j] <= k,
            decreases len - k,
        {
            let v = self.entries[k].1;
            proof {
                lemma_ballot_at(s, k as int);
                assert(s[k as int].1 == v);
            }
            assert(s.take(k + 1).drop_last() =~= s.take(k as int));
            counts.set(v, counts[v] + 1);
            k = k + 1;
        }
        proof {
            assert(s.take(len as int) =~= s);
            assert forall|j: int| 0 <= j < n implies counts@[j] == votes_for(self@, j) by {
                lemma_count_in(s, j);
            }
        }
        counts
    }
}

/// At most one option leads a count.
pub proof fn lemma_one_leader(t: Seq<nat>, a: int, b: int)
    requires
        leads(t, a),
        leads(t, b),
    ensures
        a == b,
{
    if a < b {
        assert(t[a] < t[b]);
        assert(t[b] <= t[a]);
    } else if b < a {
        assert(t[b] < t[a]);
        assert(t[a] <= t[b]);
    }
}

/// Every count that has at least one option has a leader.
pub proof fn law_a_count_has_a_winner(t: Seq<nat>)
    requires
        t.len() > 0,
    ensures
        leads(t, winner(t)),
    decreases t.len(),
{
    if t.len() == 1 {
        assert(leads(t, 0));
    } else {
        let d = t.drop_last();
        law_a_count_has_a_winner(d);
        let w = winner(d);
        assert(d[w] == t[w]);
        if t.last() > t[w] {
            assert forall|i: int| 0 <= i < t.len() implies #[trigger] t[i] <= t[t.len() - 1] by {
                if i < t.len() - 1 {
                    assert(d[i] == t[i]);
                }
            }
            assert forall|i: int| 0 <= i < t.len() - 1 implies #[trigger] t[i] < t[t.len() - 1] by {
                assert(d[i] == t[i]);
            }
            assert(leads(t, t.len() - 1));
        } else {
            assert forall|i: int| 0 <= i < t.len() implies #[trigger] t[i] <= t[w] by {
                if i < t.len() - 1 {
                    assert(d[i] == t[i]);
                }
            }
            assert forall|i: int| 0 <= i < w implies #[trigger] t[i] < t[w] by {
                assert(d[i] == t[i]);
            }
            assert(leads(t, w));
        }
    }
}

/// When nobody voted, the first option wins.
pub proof fn law_no_votes_first_option_wins(n: nat)
    requires
        n > 0,
    ensures
        winner(tally(Map::<Seq<char>, usize>::empty(), n)) == 0,
{
    let t = tally(Map::<Seq<char>, usize>::empty(), n);
    assert forall|i: int| 0 <= i < n implies t[i] == 0 by {
        assert(voters_for(Map::<Seq<char>, usize>::empty(), i) =~= Set::empty());
    }
    assert(leads(t, 0));
    lemma_one_leader(t, 0, winner(t));
}

/// The sum of a count.
pub open spec fn total(t: Seq<nat>) -> nat
    decreases t.len(),
{
    if t.len() == 0 {
        0
    } else {
        total(t.drop_last()) + t.last()
    }
}

proof fn lemma_total_zero(t: Seq<nat>)
    requires
        forall|i: int| 0 <= i < t.len() ==> t[i] == 0,
    ensures
        total(t) == 0,
    decreases t.len(),
{
    if t.len() > 0 {
        lemma_total_zero(t.drop_last());
    }
}

proof fn lemma_total_bump(a: Seq<nat>, b: Seq<nat>, v: int)
    requires
        a.len() == b.len(),
        0 <= v < a.len(),
        b[v] == a[v] + 1,
        forall|i: int| 0 <= i < a.len() && i != v ==> b[i] == a[i],
    ensures
        total(b) == total(a) + 1,
    decreases a.len(),
{
    if v == a.len() - 1 {
        assert(a.drop_last() =~= b.drop_last());
    } else {
        lemma_total_bump(a.drop_last(), b.drop_last(), v);
    }
}

/// When every vote names one of the first `n` options, the counts of those
/// options add up to the number of voters: each vote is counted once.
pub proof fn law_every_vote_counted_once(votes: Map<Seq<char>, usize>, n: nat)
    requires
        votes.dom().finite(),
        votes_within(votes, n),
    ensures
        total(tally(votes, n)) == votes.dom().len(),
    decreases votes.dom().len(),
{
    if votes.dom().len() == 0 {
        assert(votes.dom() =~= Set::empty());
        assert forall|i: int| 0 <= i < n implies tally(votes, n)[i] == 0 by {
            assert(voters_for(votes, i) =~= Set::empty());
        }
        lemma_total_zero(tally(votes, n));
    } else {
        let k = votes.dom().choose();
        let rest = votes.remove(k);
        assert(rest.dom() =~= votes.dom().remove(k));
        law_every_vote_counted_once(rest, n);
        let v = votes[k];
        assert forall|i: int| 0 <= i < n implies tally(votes, n)[i] == tally(rest, n)[i] + if i
            == v {
            1nat
        } else {
            0nat
        } by {
            let f = voters_for(votes, i);
            let fr = voters_for(rest, i);
            vstd::set_lib::lemma_set_subset_finite(rest.dom(), fr);
            if i == v {
                assert(f =~= fr.insert(k));
            } else {
                assert(f =~= fr);
            }
        }
        lemma_total_bump(tally(rest, n), tally(votes, n), v as int);
    }
}

/// The position of the first of the largest counts, the first when all are
/// zero.
pub fn leading_option(counts: &Vec<usize>) -> (w: usize)
    requires
        counts@.len() > 0,
    ensures
        leads(counts@.map_values(|c: usize| c as nat), w as int),
{
    let ghost t = counts@.map_values(|c: usize| c as nat);
    let n = counts.len();
    let mut index: usize = 0;
    let mut max: usize = 0;
    let mut i: usize = 0;
    while i < n
        invariant
            n == counts@.len(),
            n > 0,
            t == counts@.map_values(|c: usize| c as nat),
            i <= n,
            index < n,
            i == 0 ==> index == 0 && max == 0,
            i > 0 ==> index < i && max == counts@[index as int],
            forall|j: int| 0 <= j < i ==> counts@[j] <= max,
            forall|j: int| 0 <= j < index ==> counts@[j] < max,
        decreases n - i,
    {
        if counts[i] > max {
            max = counts[i];
            index = i;
        }
        i = i + 1;
    }
    assert(forall|j: int| 0 <= j < n ==> t[j] == counts@[j] as nat);
    index
}

} // verus!
