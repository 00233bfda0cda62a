use showdown_hunter::poll::{
    can_end_poll, card_class, end_poll, generate_poll, get_current_poll, get_current_vote,
    get_is_streamer, get_poll_result, set_current_vote, PollStore, CHOSEN_CARD, PLAIN_CARD,
    POLL_SIZE, STREAMER_ID,
};
use showdown_hunter::votes::{leading_option, VoteBook};

fn opened(options: Vec<&'static str>) -> PollStore<&'static str> {
    let mut store = PollStore::new();
    assert!(generate_poll(&mut store, STREAMER_ID, options));
    store
}

#[test]
fn only_the_streamer_is_a_streamer() {
    assert!(get_is_streamer("0235a210-b594-11ed-89d0-88467ddc6899"));
    assert!(!get_is_streamer("0235a210-b594-11ed-89d0-88467ddc689"));
    assert!(!get_is_streamer(""));
}

#[test]
fn a_new_store_has_no_poll() {
    let store: PollStore<u8> = PollStore::new();
    let (running, options) = get_current_poll(&store);
    assert!(!running);
    assert!(options.is_empty());
    assert_eq!(get_poll_result(&store), &None);
    assert_eq!(get_current_vote(&store, "anyone"), None);
}

#[test]
fn a_vote_reads_back() {
    let mut store = opened(vec!["a", "b", "c"]);
    set_current_vote(&mut store, "viewer".to_string(), 2);
    assert_eq!(get_current_vote(&store, "viewer"), Some(2));
    set_current_vote(&mut store, "viewer".to_string(), 0);
    assert_eq!(get_current_vote(&store, "viewer"), Some(0));
}

#[test]
fn a_vote_leaves_others() {
    let mut store = opened(vec!["a", "b"]);
    set_current_vote(&mut store, "one".to_string(), 1);
    set_current_vote(&mut store, "two".to_string(), 0);
    assert_eq!(get_current_vote(&store, "one"), Some(1));
    assert_eq!(get_current_vote(&store, "two"), Some(0));
    assert_eq!(get_current_vote(&store, "three"), None);
}

#[test]
fn votes_are_taken_without_a_running_poll() {
    let mut store: PollStore<u8> = PollStore::new();
    set_current_vote(&mut store, "early".to_string(), 7);
    assert_eq!(get_current_vote(&store, "early"), Some(7));
}

#[test]
fn others_cannot_open_a_poll() {
    let mut store = PollStore::new();
    assert!(!generate_poll(&mut store, "viewer", vec!["a"]));
    assert!(!get_current_poll(&store).0);
    assert!(get_current_poll(&store).1.is_empty());
}

#[test]
fn opening_clears_votes_and_result() {
    let mut store = opened(vec!["a", "b"]);
    set_current_vote(&mut store, "v".to_string(), 1);
    assert!(end_poll(&mut store, STREAMER_ID));
    assert_eq!(get_poll_result(&store), &Some("b"));
    set_current_vote(&mut store, "w".to_string(), 0);
    assert!(generate_poll(&mut store, STREAMER_ID, vec!["c", "d"]));
    assert_eq!(get_poll_result(&store), &None);
    assert_eq!(get_current_vote(&store, "w"), None);
    let (running, options) = get_current_poll(&store);
    assert!(running);
    assert_eq!(options, &vec!["c", "d"]);
}

#[test]
fn most_votes_win() {
    let mut store = opened(vec!["a", "b", "c", "d"]);
    set_current_vote(&mut store, "1".to_string(), 2);
    set_current_vote(&mut store, "2".to_string(), 2);
    set_current_vote(&mut store, "3".to_string(), 1);
    assert!(can_end_poll(&store));
    assert!(end_poll(&mut store, STREAMER_ID));
    assert_eq!(get_poll_result(&store), &Some("c"));
    let (running, options) = get_current_poll(&store);
    assert!(!running);
    assert!(options.is_empty());
    assert_eq!(get_current_vote(&store, "1"), None);
}

#[test]
fn a_tie_goes_to_the_first() {
    let mut store = opened(vec!["a", "b", "c"]);
    set_current_vote(&mut store, "x".to_string(), 2);
    set_current_vote(&mut store, "y".to_string(), 1);
    assert!(end_poll(&mut store, STREAMER_ID));
    assert_eq!(get_poll_result(&store), &Some("b"));
}

#[test]
fn no_votes_first_option_wins() {
    let mut store = opened(vec!["a", "b", "c"]);
    assert!(end_poll(&mut store, STREAMER_ID));
    assert_eq!(get_poll_result(&store), &Some("a"));
}

#[test]
fn a_changed_vote_counts_once() {
    let mut store = opened(vec!["a", "b"]);
    set_current_vote(&mut store, "x".to_string(), 0);
    set_current_vote(&mut store, "y".to_string(), 1);
    set_current_vote(&mut store, "x".to_string(), 1);
    assert!(end_poll(&mut store, STREAMER_ID));
    assert_eq!(get_poll_result(&store), &Some("b"));
}

#[test]
fn others_cannot_end_a_poll() {
    let mut store = opened(vec!["a", "b"]);
    set_current_vote(&mut store, "x".to_string(), 1);
    assert!(!end_poll(&mut store, "x"));
    assert!(get_current_poll(&store).0);
    assert_eq!(get_current_vote(&store, "x"), Some(1));
    assert_eq!(get_poll_result(&store), &None);
}

#[test]
fn a_poll_closes_only_with_options_and_valid_votes() {
    let empty: PollStore<u8> = PollStore::new();
    assert!(!can_end_poll(&empty));
    let mut store = opened(vec!["a", "b"]);
    assert!(can_end_poll(&store));
    set_current_vote(&mut store, "x".to_string(), 2);
    assert!(!can_end_poll(&store));
    set_current_vote(&mut store, "x".to_string(), 1);
    assert!(can_end_poll(&store));
}

#[test]
fn card_looks() {
    assert_eq!(card_class(Some(1), 1), CHOSEN_CARD);
    assert_eq!(card_class(Some(0), 1), PLAIN_CARD);
    assert_eq!(card_class(None, 0), PLAIN_CARD);
    assert_eq!(POLL_SIZE, 4);
}

#[test]
fn every_vote_counted_once() {
    let mut book = VoteBook::new();
    book.set("a".to_string(), 0);
    book.set("b".to_string(), 2);
    book.set("c".to_string(), 2);
    book.set("a".to_string(), 1);
    assert_eq!(book.len(), 3);
    let counts = book.tally(3);
    assert_eq!(counts, vec![0, 1, 2]);
    assert_eq!(counts.iter().sum::<usize>(), book.len());
    assert!(book.all_below(3));
    assert!(!book.all_below(2));
    book.clear();
    assert_eq!(book.len(), 0);
    assert_eq!(book.get("a"), None);
}

#[test]
fn the_leader_of_a_count() {
    assert_eq!(leading_option(&vec![0, 0, 0]), 0);
    assert_eq!(leading_option(&vec![1, 3, 3, 2]), 1);
    assert_eq!(leading_option(&vec![0, 0, 5]), 2);
    assert_eq!(leading_option(&vec![4]), 0);
}
