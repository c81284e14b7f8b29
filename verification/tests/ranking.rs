use image_ranker::item::Item;
use image_ranker::pair::Pair;
use image_ranker::ranking_service::RankingService;
use image_ranker::ranking_session::NoStrategy;
use image_ranker::ranking_session::RankingSession;
use image_ranker::ranking_session::WithStrategy;

fn item_score(session: &RankingSession<&str, WithStrategy>, id: usize) -> usize {
    for it in session.items().iter() {
        if it.id() == id {
            return it.score();
        }
    }
    panic!("unknown id");
}

fn item_value<'a>(session: &RankingSession<&'a str, WithStrategy>, id: usize) -> &'a str {
    for it in session.items().iter() {
        if it.id() == id {
            return it.value();
        }
    }
    panic!("unknown id");
}

#[test]
fn test_states() {
    let cars = vec!["Hyper Car", "Car", "Bicycle"];
    let expected_items_count = cars.len();
    let expected_pairs_count = 2 + 1;

    let mut service: RankingService<&str> = RankingService::new(cars);
    let session: RankingSession<&str, NoStrategy> = service.new_session();
    let mut session: RankingSession<&str, WithStrategy> =
        session.with_each_with_each_strategy(false);

    assert_eq!(expected_items_count, session.items_count());
    assert_eq!(expected_pairs_count, session.total_pairs());
    assert_eq!(0, session.current_pair_index());

    let pair = session.next().expect("should have value");
    assert_eq!(0, item_score(&session, pair.left));
    session.add_one_point(pair.left);
    assert_eq!(1, item_score(&session, pair.left));

    assert_eq!("Hyper Car", item_value(&session, pair.left));
    assert_eq!("Car", item_value(&session, pair.right));

    let pair = session.next().expect("should have value");
    assert_eq!("Hyper Car", item_value(&session, pair.left));
    assert_eq!("Bicycle", item_value(&session, pair.right));

    let pair = session.next().expect("should have value");
    assert_eq!("Car", item_value(&session, pair.left));
    assert_eq!("Bicycle", item_value(&session, pair.right));

    let pair = session.next();
    assert!(pair.is_none());
    assert_eq!(session.total_pairs(), session.current_pair_index());
    assert_eq!(3, session.current_pair_index());
}

#[test]
fn each_with_each_covers_every_pair_once() {
    for n in 0..7usize {
        let values: Vec<String> = (0..n).map(|i| format!("item{}", i)).collect();
        let mut service = RankingService::new(values);
        let mut session = service.new_session().with_each_with_each_strategy(false);
        let expected = n * n.saturating_sub(1) / 2;
        assert_eq!(expected, session.total_pairs());
        let mut seen: Vec<(usize, usize)> = Vec::new();
        while let Some(p) = session.next() {
            assert_ne!(p.left, p.right);
            let key = p.hash_key();
            assert!(!seen.contains(&key));
            seen.push(key);
        }
        assert_eq!(expected, seen.len());
    }
}

#[test]
fn each_with_each_generation_order_is_deterministic() {
    let values = vec!["a", "b", "c", "d"];
    let mut service = RankingService::new(values);
    let mut first = service.new_session().with_each_with_each_strategy(false);
    let mut second = service.new_session().with_each_with_each_strategy(false);
    let first_start = first.items()[0].id();
    let second_start = second.items()[0].id();
    while let Some(p) = first.next() {
        let q = second.next().expect("both queues have the same length");
        // ids differ between sessions, but the paired positions must match
        assert_eq!(p.left - first_start, q.left - second_start);
        assert_eq!(p.right - first_start, q.right - second_start);
    }
    assert!(second.next().is_none());
}

#[test]
fn shuffle_keeps_the_same_multiset_of_pairs() {
    let values: Vec<String> = (0..6).map(|i| format!("item{}", i)).collect();
    let mut service = RankingService::new(values.clone());
    let mut plain = service.new_session().with_each_with_each_strategy(false);
    let mut plain_keys: Vec<(usize, usize)> = Vec::new();
    while let Some(p) = plain.next() {
        plain_keys.push(p.hash_key());
    }

    let mut other_service = RankingService::new(values);
    let mut shuffled = other_service.new_session().with_each_with_each_strategy(true);
    assert_eq!(plain_keys.len(), shuffled.total_pairs());
    let mut shuffled_keys: Vec<(usize, usize)> = Vec::new();
    while let Some(p) = shuffled.next() {
        shuffled_keys.push(p.hash_key());
    }
    plain_keys.sort();
    shuffled_keys.sort();
    assert_eq!(plain_keys, shuffled_keys);
}

#[test]
fn each_against_random_n_counts_and_validity() {
    let values: Vec<String> = (0..10).map(|i| format!("item{}", i)).collect();
    let mut service = RankingService::new(values);
    let mut session = service.new_session().with_each_against_random_n_strategy(false, 1);
    assert_eq!(10, session.total_pairs());
    let mut seen: Vec<(usize, usize)> = Vec::new();
    while let Some(p) = session.next() {
        assert_ne!(p.left, p.right);
        let key = p.hash_key();
        assert!(!seen.contains(&key));
        seen.push(key);
    }
    assert_eq!(10, seen.len());
}

#[test]
fn each_against_random_n_with_zero_random() {
    let values = vec!["a", "b", "c"];
    let mut service = RankingService::new(values);
    let mut session = service.new_session().with_each_against_random_n_strategy(false, 0);
    assert_eq!(0, session.total_pairs());
    assert!(session.next().is_none());
}

#[test]
fn each_against_random_n_shuffled_stays_valid() {
    let values: Vec<String> = (0..5).map(|i| format!("item{}", i)).collect();
    let mut service = RankingService::new(values);
    let mut session = service.new_session().with_each_against_random_n_strategy(true, 2);
    assert_eq!(10, session.total_pairs());
    let mut seen: Vec<(usize, usize)> = Vec::new();
    while let Some(p) = session.next() {
        assert_ne!(p.left, p.right);
        let key = p.hash_key();
        assert!(!seen.contains(&key));
        seen.push(key);
    }
    assert_eq!(10, seen.len());
}

#[test]
fn scoring_accumulates_one_point_per_win() {
    let mut item = Item::new("anything", 41);
    assert_eq!(0, item.score());
    for _ in 0..5 {
        item.add_one_point();
    }
    assert_eq!(5, item.score());
    assert_eq!(41, item.id());
}

#[test]
fn items_with_equal_values_are_not_equal_and_compare_by_score() {
    let a: Item<&str> = Item::new("same", 1);
    let mut b: Item<&str> = Item::new("same", 2);
    assert!(a != b);
    b.add_one_point();
    assert!(a < b);
    assert!(a.value() == b.value());
}

#[test]
fn pairs_are_unordered_and_share_a_hash_key() {
    let ab = Pair::new(3, 9);
    let ba = Pair::new(9, 3);
    assert!(ab == ba);
    assert_eq!(ab.hash_key(), ba.hash_key());
    let other = Pair::new(3, 8);
    assert!(ab != other);
}

#[test]
fn leaderboard_puts_the_scored_item_first() {
    let cars = vec!["Hyper Car", "Car", "Bicycle"];
    let mut service = RankingService::new(cars);
    let mut session = service.new_session().with_each_with_each_strategy(false);
    let pair = session.next().expect("should have value");
    let hyper_car_id = pair.left;
    assert_eq!("Hyper Car", item_value(&session, hyper_car_id));
    session.add_one_point(hyper_car_id);
    session.next();
    session.next();
    assert!(session.next().is_none());
    let board = session.leaderboard();
    assert_eq!(3, board.len());
    assert_eq!((1, hyper_car_id), board[0]);
    assert_eq!(0, board[1].0);
    assert_eq!(0, board[2].0);
}

#[test]
fn sessions_from_one_service_have_disjoint_ids() {
    let values = vec!["x", "y", "z"];
    let mut service = RankingService::new(values);
    let first = service.new_session();
    let second = service.new_session();
    for a in first.items().iter() {
        for b in second.items().iter() {
            assert_ne!(a.id(), b.id());
        }
    }
    assert_eq!(first.items_count(), second.items_count());
    for (a, b) in first.items().iter().zip(second.items().iter()) {
        assert_eq!(a.value(), b.value());
    }
}

#[test]
fn empty_item_set_yields_an_exhausted_session() {
    let values: Vec<String> = Vec::new();
    let mut service = RankingService::new(values);
    let mut session = service.new_session().with_each_with_each_strategy(false);
    assert_eq!(0, session.items_count());
    assert_eq!(0, session.total_pairs());
    assert!(session.next().is_none());
    assert!(session.next().is_none());
    assert_eq!(0, session.current_pair_index());
}

#[test]
fn single_item_yields_no_pairs() {
    let values = vec!["only"];
    let mut service = RankingService::new(values);
    let mut session = service.new_session().with_each_with_each_strategy(false);
    assert_eq!(1, session.items_count());
    assert_eq!(0, session.total_pairs());
    assert!(session.next().is_none());
}

#[test]
fn scoring_an_unknown_id_changes_nothing() {
    let values = vec!["a", "b"];
    let mut service = RankingService::new(values);
    let mut session = service.new_session().with_each_with_each_strategy(false);
    let missing = 1_000_000;
    assert!(!session.add_one_point(missing));
    for it in session.items().iter() {
        assert_eq!(0, it.score());
    }
}
