//! The poll that a streamer runs for their chat: the options on show, the
//! votes cast, and the winner of the last poll.

use vstd::prelude::*;
use crate::votes::{
    VoteBook, law_a_count_has_a_winner, leading_option, lemma_one_leader, leads, tally, votes_for,
    votes_within, winner,
};

verus! {

/// The only user allowed to open and close polls.
pub const STREAMER_ID: &'static str = "0235a210-b594-11ed-89d0-88467ddc6899";

/// The users allowed to open and close polls.
pub open spec fn streamers() -> Seq<Seq<char>> {
    seq![STREAMER_ID@]
}

/// Whether `uuid` names a streamer.
pub open spec fn is_streamer(uuid: Seq<char>) -> bool {
    streamers().contains(uuid)
}

/// Whether the user `uuid` may open and close polls.
pub fn get_is_streamer(uuid: &str) -> (r: bool)
    ensures
        r == is_streamer(uuid@),
{
    let r = String::from_str(uuid) == String::from_str(STREAMER_ID);
    proof {
        if r {
            assert(streamers()[0] == uuid@);
        }
    }
    r
}

/// What a poll holds: whether it is running, the options on show, each
/// voter's choice, and the option that won the last poll.
#[verifier::ext_equal]
pub struct PollView<T> {
    pub running: bool,
    pub options: Seq<T>,
    pub votes: Map<Seq<char>, usize>,
    pub result: Option<T>,
}

/// The poll state of a server.
pub struct PollStore<T> {
    running: bool,
    options: Vec<T>,
    votes: VoteBook,
    result: Option<T>,
}

impl<T> View for PollStore<T> {
    type V = PollView<T>;

    closed spec fn view(&self) -> PollView<T> {
        PollView {
            running: self.running,
            options: self.options@,
            votes: self.votes@,
            result: self.result,
        }
    }
}

/// A poll can be closed when it has options and every vote names one.
pub open spec fn closable<T>(p: PollView<T>) -> bool {
    p.options.len() > 0 && votes_within(p.votes, p.options.len())
}

/// The option that wins the poll: the first of those with the most votes.
pub open spec fn poll_winner<T>(p: PollView<T>) -> int {
    winner(tally(p.votes, p.options.len()))
}

impl<T> PollStore<T> {
    /// A server's state before any poll: none running, no options, no votes
    /// and no result.
    pub fn new() -> (s: Self)
        ensures
            s@ == (PollView::<T> {
                running: false,
                options: Seq::empty(),
                votes: Map::empty(),
                result: None,
            }),
    {
        PollStore { running: false, options: Vec::new(), votes: VoteBook::new(), result: None }
    }
}

/// Whether a poll is running, and its options.
pub fn get_current_poll<T>(store: &PollStore<T>) -> (r: (bool, &Vec<T>))
    ensures
        r.0 == store@.running,
        r.1@ == store@.options,
{
    (store.running, &store.options)
}

/// The option that won the last poll, if one was closed since the last
/// poll was opened.
pub fn get_poll_result<T>(store: &PollStore<T>) -> (r: &Option<T>)
    ensures
        *r == store@.result,
{
    &store.result
}

/// Records that `user_id` chose option `idx`, in place of any earlier choice.
pub fn set_current_vote<T>(store: &mut PollStore<T>, user_id: String, idx: usize)
    ensures
        final(store)@ == (PollView { votes: old(store)@.votes.insert(user_id@, idx), ..old(store)@ }),
{
    store.votes.set(user_id, idx);
}

/// The option that `uuid` chose, if they voted.
pub fn get_current_vote<T>(store: &PollStore<T>, uuid: &str) -> (r: Option<usize>)
    ensures
        r == (if store@.votes.dom().contains(uuid@) {
            Some(store@.votes[uuid@])
        } else {
            None
        }),
{
    store.votes.get(uuid)
}

/// Opens a poll over `pokemon` when `user_id` is a streamer: the votes are
/// forgotten and the last result is cleared. Returns whether it did.
pub fn generate_poll<T>(store: &mut PollStore<T>, user_id: &str, pokemon: Vec<T>) -> (opened: bool)
    ensures
        opened == is_streamer(user_id@),
        !opened ==> final(store)@ == old(store)@,
        opened ==> final(store)@ == (PollView::<T> {
            running: true,
            options: pokemon@,
            votes: Map::empty(),
            result: None,
        }),
{
    if !get_is_streamer(user_id) {
        return false;
    }
    store.votes.clear();
    store.result = None;
    store.running = true;
    store.options = pokemon;
    true
}

/// Whether the poll can be closed without a vote naming a missing option.
pub fn can_end_poll<T>(store: &PollStore<T>) -> (r: bool)
    ensures
        r == closable(store@),
{
    let n = store.options.len();
    n > 0 && store.votes.all_below(n)
}

/// Closes the poll when `user_id` is a streamer: the option with the most
/// votes, the first of them on a tie, becomes the result, and the options
/// and votes are dropped. Returns whether it did.
pub fn end_poll<T>(store: &mut PollStore<T>, user_id: &str) -> (ended: bool)
    requires
        is_streamer(user_id@) ==> closable(old(store)@),
    ensures
        ended == is_streamer(user_id@),
        !ended ==> final(store)@ == old(store)@,
        ended ==> final(store)@ == (PollView::<T> {
            running: false,
            options: Seq::empty(),
            votes: Map::empty(),
            result: Some(old(store)@.options[poll_winner(old(store)@)]),
        }),
{
    if !get_is_streamer(user_id) {
        return false;
    }
    let ghost before = store@;
    let n = store.options.len();
    let counts = store.votes.tally(n);
    let w = leading_option(&counts);
    proof {
        let t = tally(before.votes, n as nat);
        assert(counts@.map_values(|c: usize| c as nat) =~= t);
        lemma_one_leader(t, w as int, winner(t));
    }
    let mut options: Vec<T> = Vec::new();
    std::mem::swap(&mut options, &mut store.options);
    let chosen = options.swap_remove(w);
    store.result = Some(chosen);
    store.running = false;
    store.votes.clear();
    true
}


/// After `user` votes for `option`, reading `user`'s vote gives `option`.
pub proof fn law_vote_read_after_write<T>(p: PollView<T>, user: Seq<char>, option: usize)
    ensures
        ({
            let after = PollView { votes: p.votes.insert(user, option), ..p };
            after.votes.dom().contains(user) && after.votes[user] == option
        }),
{
}

/// A vote by one user leaves every other user's vote as it was.
pub proof fn law_vote_leaves_others<T>(
    p: PollView<T>,
    user: Seq<char>,
    option: usize,
    other: Seq<char>,
)
    requires
        other != user,
    ensures
        ({
            let after = PollView { votes: p.votes.insert(user, option), ..p };
            &&& after.votes.dom().contains(other) == p.votes.dom().contains(other)
            &&& p.votes.dom().contains(other) ==> after.votes[other] == p.votes[other]
        }),
{
}

/// The option that a closed poll gives as its result has at least as many
/// votes as any other option, and more than every option before it.
pub proof fn law_result_leads<T>(p: PollView<T>)
    requires
        closable(p),
    ensures
        leads(tally(p.votes, p.options.len()), poll_winner(p)),
{
    law_a_count_has_a_winner(tally(p.votes, p.options.len()));
}

/// The result of closing a poll depends only on how many voters chose each
/// option: not on who they are, nor on the order in which they voted.
pub proof fn law_result_depends_only_on_counts<T>(p: PollView<T>, q: PollView<T>)
    requires
        p.options == q.options,
        forall|i: int| 0 <= i < p.options.len() ==> votes_for(p.votes, i) == votes_for(q.votes, i),
    ensures
        poll_winner(p) == poll_winner(q),
        p.options.len() > 0 ==> p.options[poll_winner(p)] == q.options[poll_winner(q)],
{
    assert(tally(p.votes, p.options.len()) =~= tally(q.votes, q.options.len()));
}

/// How many move sets a streamer's poll offers.
pub const POLL_SIZE: usize = 4;

/// The look of the card of an option the user voted for.
pub const CHOSEN_CARD: &'static str =
    "flex justify-center p-3 border-2 border-green-500 bg-slate-300 rounded-lg shadow-xl";

/// The look of the card of any other option.
pub const PLAIN_CARD: &'static str =
    "flex justify-center p-3 border-2 border-slate-700 rounded-lg shadow-xl";

/// The look of the card of option `option`, given the user's vote.
pub fn card_class(vote: Option<usize>, option: usize) -> (r: &'static str)
    ensures
        r@ == (if vote == Some(option) {
            CHOSEN_CARD@
        } else {
            PLAIN_CARD@
        }),
{
    match vote {
        Some(v) => if v == option {
            CHOSEN_CARD
        } else {
            PLAIN_CARD
        },
        None => PLAIN_CARD,
    }
}

} // verus!
