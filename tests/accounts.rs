use wager::model::{hash_password, BetParticipant, Error, Score, Timestamp, User};
use wager::score::{create_default_score, payout_participant, update_score_losing_bet, update_score_winning_bet};
use wager::store::Store;

fn at(micros: i64) -> Timestamp {
    Timestamp { micros }
}

fn users_for_accounts(store: &mut Store, names: Vec<&str>) -> Vec<User> {
    let mut users = Vec::new();
    for name in names {
        let user = store
            .create_user(name.to_string(), format!("{}@mail.com", name), "pass123".to_string(), at(1))
            .unwrap();
        users.push(user);
    }
    users.reverse();
    users
}

#[test]
fn users_test_create_user() {
    let mut store = Store::new();
    let user = store
        .create_user("john".into(), "john@mail.com".into(), "pass_ABCD".into(), at(1))
        .unwrap();
    assert_eq!(user.username, "john");
    assert_eq!(user.email, "john@mail.com");
}

#[test]
fn users_test_user_by_id() {
    let mut store = Store::new();
    store
        .create_user("john".into(), "john@mail.com".into(), "pass_ABCD".into(), at(1))
        .unwrap();
    let user = store.read_user_with_id(1).unwrap();
    assert_eq!(user.username, "john");
    assert_eq!(user.email, "john@mail.com");
}

#[test]
fn users_test_user_by_username() {
    let mut store = Store::new();
    let created_user = store
        .create_user("john".into(), "john@mail.com".into(), "pass_ABCD".into(), at(1))
        .unwrap();
    let read_user = store.read_user_with_username("john").unwrap();
    assert_eq!(read_user, created_user);
    assert_eq!(User::read_from_name(&store, "john").unwrap(), created_user);
    assert_eq!(User::read_from_id(&store, created_user.id).unwrap(), created_user);
}

#[test]
fn usernames_are_unique_and_unknown_users_not_found() {
    let mut store = Store::new();
    store.create_user("john".into(), "a@mail.com".into(), "x".into(), at(1)).unwrap();
    assert_eq!(
        store.create_user("john".into(), "b@mail.com".into(), "y".into(), at(2)),
        Err(Error::ConstraintViolation)
    );
    assert_eq!(store.read_user_with_username("mark"), Err(Error::NotFound));
    assert_eq!(store.read_user_with_id(2), Err(Error::NotFound));
    assert_eq!(store.read_user_with_id(0), Err(Error::NotFound));
    assert_eq!(store.read_user_score(5), Err(Error::NotFound));
}

#[test]
fn new_user_keeps_password_as_credential() {
    let mut store = Store::new();
    let user = User::new(&mut store, "ann".into(), "ann@mail.com".into(), "secret".into(), at(7)).unwrap();
    assert_eq!(user.password_hash, "secret");
    assert_eq!(user.created_at, at(7));
    assert_eq!(hash_password("abc".to_string()), "abc");
}

#[test]
fn scores_read_default_score() {
    let mut store = Store::new();
    let user = store
        .create_user("bob".into(), "bob@mail.com".into(), "bobpass".into(), at(1))
        .unwrap();
    let created_score = create_default_score(user.id);
    let read_score = store.read_user_score(user.id).unwrap();

    assert_eq!(created_score, read_score);
    assert_eq!(created_score.points_earned, 0);
    assert_eq!(created_score.total_wins, 0);
    assert_eq!(created_score.total_losses, 0);
    assert_eq!(created_score.user_id, user.id);
    assert_eq!(Score::from_username(&store, "bob").unwrap(), read_score);
}

#[test]
fn bet_win() {
    let mut store = Store::new();
    let mut users = users_for_accounts(&mut store, vec!["Bob"]);
    let bob = users.pop().unwrap();

    let mut score = store.read_user_score(bob.id).unwrap();
    assert_eq!(score.points_earned, 0);
    assert_eq!(score.total_wins, 0);
    assert_eq!(score.total_losses, 0);

    let bet = store.create_timeless_bet(bob.id, "".into(), at(2)).unwrap();
    let bet_participant = store.create_bet_participant(bob.id, bet.id, 100, true).unwrap();

    update_score_winning_bet(&mut score, &bet_participant).unwrap();
    assert_eq!(score.points_earned, 100);
    assert_eq!(score.total_wins, 1);
    assert_eq!(score.total_losses, 0);
}

#[test]
fn bet_loss() {
    let mut store = Store::new();
    let mut users = users_for_accounts(&mut store, vec!["Bob"]);
    let bob = users.pop().unwrap();

    let mut score = store.read_user_score(bob.id).unwrap();
    assert_eq!(score.points_earned, 0);
    assert_eq!(score.total_wins, 0);
    assert_eq!(score.total_losses, 0);

    let bet = store.create_timeless_bet(bob.id, "".into(), at(2)).unwrap();
    let bet_participant = store.create_bet_participant(bob.id, bet.id, 100, true).unwrap();

    update_score_losing_bet(&mut score, &bet_participant).unwrap();
    assert_eq!(score.points_earned, 0);
    assert_eq!(score.total_wins, 0);
    assert_eq!(score.total_losses, 1);
}

#[test]
fn wins_add_points_on_top_of_earlier_ones() {
    let mut score = Score { user_id: 3, total_wins: 2, total_losses: 4, points_earned: 50 };
    let stake = BetParticipant { bet_id: 1, user_id: 3, for_bet: false, bet_amount: 25, paid_out: false };
    update_score_winning_bet(&mut score, &stake).unwrap();
    assert_eq!(score, Score { user_id: 3, total_wins: 3, total_losses: 4, points_earned: 75 });
    update_score_losing_bet(&mut score, &stake).unwrap();
    assert_eq!(score, Score { user_id: 3, total_wins: 3, total_losses: 5, points_earned: 75 });
}

#[test]
fn score_updates_refuse_bad_input_and_keep_the_record() {
    let mut score = Score { user_id: 1, total_wins: i32::MAX, total_losses: 0, points_earned: 0 };
    let before = score;
    let stake = BetParticipant { bet_id: 1, user_id: 1, for_bet: true, bet_amount: 5, paid_out: false };
    assert_eq!(update_score_winning_bet(&mut score, &stake), Err(Error::StoreFailure));
    let other = BetParticipant { user_id: 2, ..stake };
    assert_eq!(update_score_losing_bet(&mut score, &other), Err(Error::NotFound));
    let empty = BetParticipant { bet_amount: 0, ..stake };
    assert_eq!(update_score_losing_bet(&mut score, &empty), Err(Error::ConstraintViolation));
    assert_eq!(score, before);
}

#[test]
fn payout_participant_of_bet() {
    let mut store = Store::new();
    let mut users = users_for_accounts(&mut store, vec!["bob", "john"]);
    let bob = users.pop().unwrap();
    let john = users.pop().unwrap();

    let bet = store.create_timeless_bet(bob.id, String::from("description"), at(2)).unwrap();
    let mut bob_bet = store.create_bet_participant(bob.id, bet.id, 10, true).unwrap();
    let mut john_bet = store.create_bet_participant(john.id, bet.id, 25, false).unwrap();

    let mut bob_score = store.read_user_score(bob.id).unwrap();
    payout_participant(&mut bob_bet, &mut bob_score, true).unwrap();
    assert_eq!(bob_bet.paid_out, true);
    assert_eq!(bob_score.points_earned, 10);
    assert_eq!(bob_score.total_wins, 1);
    assert_eq!(bob_score.total_losses, 0);

    let mut john_score = store.read_user_score(john.id).unwrap();
    payout_participant(&mut john_bet, &mut john_score, true).unwrap();
    assert_eq!(john_bet.paid_out, true);
    assert_eq!(john_score.points_earned, 0);
    assert_eq!(john_score.total_wins, 0);
    assert_eq!(john_score.total_losses, 1);
}

#[test]
fn settling_a_paid_stake_again_is_refused() {
    let mut stake = BetParticipant { bet_id: 1, user_id: 1, for_bet: true, bet_amount: 10, paid_out: false };
    let mut score = create_default_score(1);
    payout_participant(&mut stake, &mut score, true).unwrap();
    let once = score;
    assert_eq!(payout_participant(&mut stake, &mut score, true), Err(Error::PreconditionViolation));
    assert_eq!(score, once);
    assert_eq!(score.total_wins, 1);
    assert_eq!(score.points_earned, 10);
}

#[test]
fn bet_participants_get_participants_of_bet() {
    let mut store = Store::new();
    let mut users = users_for_accounts(&mut store, vec!["Bob", "John"]);
    let bob = users.pop().unwrap();
    let john = users.pop().unwrap();

    let timeless_bet = store.create_timeless_bet(bob.id, String::from("description"), at(2)).unwrap();
    let tomorrow = at(2 + 86_400_000_000);
    let timed_bet = store.create_timed_bet(bob.id, String::from("description"), tomorrow, at(2)).unwrap();

    let bob_timeless_bet = store.create_bet_participant(bob.id, timeless_bet.id, 10, true).unwrap();
    let john_timeless_bet = store.create_bet_participant(john.id, timeless_bet.id, 10, true).unwrap();
    let bob_timed_bet = store.create_bet_participant(bob.id, timed_bet.id, 10, true).unwrap();
    let john_timed_bet = store.create_bet_participant(john.id, timed_bet.id, 10, true).unwrap();

    assert_eq!(bob_timeless_bet.bet_id, timeless_bet.id);
    assert_eq!(john_timeless_bet.bet_id, timeless_bet.id);
    assert_eq!(bob_timed_bet.bet_id, timed_bet.id);
    assert_eq!(john_timed_bet.bet_id, timed_bet.id);

    assert_eq!(store.get_bet_participants(timeless_bet.id).len(), 2);
    assert_eq!(store.get_bet_participants(timed_bet.id).len(), 2);

    assert_eq!(store.get_bet_participant_by_bet_id(timed_bet.id).unwrap(), bob_timed_bet);
    assert_eq!(BetParticipant::read_from_id(&store, 9), Err(Error::NotFound));
    assert_eq!(john_timed_bet.user(&store).unwrap(), john);
}

#[test]
fn particpate_in_bets() {
    let mut store = Store::new();
    let mut users = users_for_accounts(&mut store, vec!["Bob", "John"]);
    let bob = users.pop().unwrap();
    let john = users.pop().unwrap();

    let bet1 = store.create_timeless_bet(bob.id, String::from("description"), at(2)).unwrap();
    let bet2 = store.create_timeless_bet(bob.id, String::from("description"), at(2)).unwrap();
    let bet3 = store.create_timeless_bet(bob.id, String::from("description"), at(2)).unwrap();

    store.create_bet_participant(bob.id, bet1.id, 10, true).unwrap();
    store.create_bet_participant(bob.id, bet2.id, 10, true).unwrap();
    store.create_bet_participant(bob.id, bet3.id, 10, true).unwrap();
    store.create_bet_participant(john.id, bet1.id, 10, true).unwrap();
    store.create_bet_participant(john.id, bet2.id, 10, true).unwrap();

    assert_eq!(store.get_bet_participants_by_bet_user(bob.id).len(), 3);
    assert_eq!(store.get_bet_participants_by_bet_user(john.id).len(), 2);
    assert_eq!(john.bets(&store).len(), 2);
}
