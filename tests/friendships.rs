use wager::model::{Error, FriendRequestResponse, FriendshipStatus, Timestamp, User};
use wager::store::Store;

fn at(micros: i64) -> Timestamp {
    Timestamp { micros }
}

fn users_for_friends(store: &mut Store, names: Vec<&str>) -> Vec<User> {
    let mut users = Vec::new();
    for name in names {
        let user = store
            .create_user(name.to_string(), format!("{}@mail.com", name), "pass123".to_string(), at(1))
            .unwrap();
        users.push(user);
    }
    users.reverse();
    users
}

#[test]
fn friendships_test_send_friend_request() {
    let mut store = Store::new();
    let mut users = users_for_friends(&mut store, vec!["Bob", "John"]);
    let bob = users.pop().unwrap();
    let john = users.pop().unwrap();

    let friendship = store.send_friend_request(john.id, bob.id, at(2)).unwrap();
    assert_eq!(friendship.user_id, john.id);
    assert_eq!(friendship.friend_id, bob.id);
    assert_eq!(friendship.status, FriendshipStatus::Pending);
}

#[test]
fn friendships_test_get_friendship() {
    let mut store = Store::new();
    let mut users = users_for_friends(&mut store, vec!["Bob", "John"]);
    let bob = users.pop().unwrap();
    let john = users.pop().unwrap();

    store.send_friend_request(john.id, bob.id, at(2)).unwrap();
    let friendship = store.get_friendship(john.id, bob.id).unwrap();
    assert_eq!(friendship.user_id, john.id);
    assert_eq!(friendship.friend_id, bob.id);
    assert_eq!(friendship.status, FriendshipStatus::Pending);
}

#[test]
fn friendships_test_get_friendships() {
    let mut store = Store::new();
    let mut users = users_for_friends(&mut store, vec!["Bob", "John", "Mark"]);
    let bob = users.pop().unwrap();
    let john = users.pop().unwrap();
    let mark = users.pop().unwrap();

    store.send_friend_request(john.id, bob.id, at(2)).unwrap();
    store.send_friend_request(mark.id, john.id, at(2)).unwrap();
    store.send_friend_request(mark.id, bob.id, at(2)).unwrap();

    let john_friendships = store.get_friendships(john.id);
    assert_eq!(john_friendships.len(), 1);
    let mark_friendships = store.get_friendships(mark.id);
    assert_eq!(mark_friendships.len(), 2);
}

#[test]
fn friendships_accept_friend_request() {
    let mut store = Store::new();
    let mut users = users_for_friends(&mut store, vec!["Bob", "John"]);
    let bob = users.pop().unwrap();
    let john = users.pop().unwrap();

    let friend_request = store.send_friend_request(john.id, bob.id, at(2)).unwrap();
    assert_eq!(friend_request.user_id, john.id);
    assert_eq!(friend_request.friend_id, bob.id);
    assert_eq!(friend_request.status, FriendshipStatus::Pending);

    let response = store
        .respond_to_friend_request(bob.id, john.id, FriendRequestResponse::Accept, at(3))
        .unwrap();

    let response_friendship_1 = response.0;
    assert_eq!(response_friendship_1.user_id, john.id);
    assert_eq!(response_friendship_1.friend_id, bob.id);
    assert_eq!(response_friendship_1.status, FriendshipStatus::Accepted);

    let response_friendship_2 = response.1;
    assert!(response_friendship_2.is_some());
    let response_friendship_2 = response_friendship_2.unwrap();
    assert_eq!(response_friendship_2.user_id, bob.id);
    assert_eq!(response_friendship_2.friend_id, john.id);
    assert_eq!(response_friendship_2.status, FriendshipStatus::Accepted);

    let friendship_1 = store.get_friendship(john.id, bob.id).unwrap();
    assert_eq!(friendship_1.user_id, john.id);
    assert_eq!(friendship_1.friend_id, bob.id);
    assert_eq!(friendship_1.status, FriendshipStatus::Accepted);

    let friendship_2 = store.get_friendship(bob.id, john.id).unwrap();
    assert_eq!(friendship_2.user_id, bob.id);
    assert_eq!(friendship_2.friend_id, john.id);
    assert_eq!(friendship_2.status, FriendshipStatus::Accepted);
}

#[test]
fn friendships_reject_friend_request() {
    let mut store = Store::new();
    let mut users = users_for_friends(&mut store, vec!["Bob", "John"]);
    let bob = users.pop().unwrap();
    let john = users.pop().unwrap();

    let request = store.send_friend_request(john.id, bob.id, at(2)).unwrap();
    assert_eq!(request.user_id, john.id);
    assert_eq!(request.friend_id, bob.id);
    assert_eq!(request.status, FriendshipStatus::Pending);

    let response = store
        .respond_to_friend_request(bob.id, john.id, FriendRequestResponse::Reject, at(3))
        .unwrap();
    let response_1 = response.0;
    let response_2 = response.1;
    assert_eq!(response_1.user_id, john.id);
    assert_eq!(response_1.friend_id, bob.id);
    assert_eq!(response_1.status, FriendshipStatus::Rejected);
    assert!(response_2.is_none());

    let friendship_1 = store.get_friendship(john.id, bob.id).unwrap();
    assert_eq!(friendship_1.user_id, john.id);
    assert_eq!(friendship_1.friend_id, bob.id);
    assert_eq!(friendship_1.status, FriendshipStatus::Rejected);

    let friendship_2 = store.get_friendship(bob.id, john.id);
    assert!(friendship_2.is_err());
}

#[test]
fn friendship() {
    let mut store = Store::new();
    let user1 = User::new(&mut store, "user1".into(), "user1@mail.com".into(), "user1pass".into(), at(1)).unwrap();
    let user2 = User::new(&mut store, "user2".into(), "user2@mail.com".into(), "user2pass".into(), at(1)).unwrap();
    let user3 = User::new(&mut store, "user3".into(), "user3@mail.com".into(), "user3pass".into(), at(1)).unwrap();

    let friend_request = user1.send_friend_request(&mut store, &user2, at(2)).unwrap();
    assert_eq!(friend_request.user_id, user1.id);
    assert_eq!(friend_request.friend_id, user2.id);
    assert_eq!(friend_request.status, FriendshipStatus::Pending);

    user1.send_friend_request(&mut store, &user3, at(2)).unwrap();
    user2.send_friend_request(&mut store, &user3, at(2)).unwrap();

    user2.accept_friend_request(&mut store, &user1, at(3)).unwrap();
    user3.accept_friend_request(&mut store, &user2, at(3)).unwrap();
    user3.reject_friend_request(&mut store, &user1, at(3)).unwrap();

    let user1_friends = user1.friendships_accepted(&store);
    let user1_friendships = user1.friendships_all(&store);
    assert_eq!(user1_friends.len(), 1);
    assert_eq!(user1_friendships.len(), 2);
    assert_eq!(user2.friendships_accepted(&store).len(), 2);
}

#[test]
fn john_and_bob_become_friends_both_ways() {
    let mut store = Store::new();
    let john = User::new(&mut store, "john".into(), "john@mail.com".into(), "pw".into(), at(1)).unwrap();
    let bob = User::new(&mut store, "bob".into(), "bob@mail.com".into(), "pw".into(), at(1)).unwrap();
    john.send_friend_request(&mut store, &bob, at(2)).unwrap();
    bob.accept_friend_request(&mut store, &john, at(3)).unwrap();

    let bobs = bob.friendships_accepted(&store);
    let johns = john.friendships_accepted(&store);
    assert_eq!(bobs.len(), 1);
    assert_eq!(johns.len(), 1);
    assert_eq!((bobs[0].user_id, bobs[0].friend_id), (bob.id, john.id));
    assert_eq!((johns[0].user_id, johns[0].friend_id), (john.id, bob.id));
    assert_eq!(johns[0].responded_at, Some(at(3)));
    assert_eq!(bobs[0].responded_at, Some(at(3)));
}

#[test]
fn answering_twice_is_refused() {
    let mut store = Store::new();
    let john = User::new(&mut store, "john".into(), "john@mail.com".into(), "pw".into(), at(1)).unwrap();
    let bob = User::new(&mut store, "bob".into(), "bob@mail.com".into(), "pw".into(), at(1)).unwrap();
    john.send_friend_request(&mut store, &bob, at(2)).unwrap();
    bob.accept_friend_request(&mut store, &john, at(3)).unwrap();
    assert_eq!(bob.accept_friend_request(&mut store, &john, at(4)), Err(Error::PreconditionViolation));
    assert_eq!(bob.reject_friend_request(&mut store, &john, at(4)), Err(Error::PreconditionViolation));
    assert_eq!(store.get_friendship(john.id, bob.id).unwrap().status, FriendshipStatus::Accepted);
    assert_eq!(store.get_friendships(bob.id).len(), 1);
}

#[test]
fn friend_request_errors() {
    let mut store = Store::new();
    let john = User::new(&mut store, "john".into(), "john@mail.com".into(), "pw".into(), at(1)).unwrap();
    let bob = User::new(&mut store, "bob".into(), "bob@mail.com".into(), "pw".into(), at(1)).unwrap();
    assert_eq!(store.send_friend_request(john.id, 7, at(2)), Err(Error::NotFound));
    assert_eq!(
        store.respond_to_friend_request(bob.id, john.id, FriendRequestResponse::Accept, at(2)),
        Err(Error::NotFound)
    );
    store.send_friend_request(john.id, bob.id, at(2)).unwrap();
    assert_eq!(store.send_friend_request(john.id, bob.id, at(3)), Err(Error::ConstraintViolation));
    let (answered, reverse) = store
        .respond_to_friend_request(bob.id, john.id, FriendRequestResponse::Reject, at(4))
        .unwrap();
    assert_eq!(answered.status, FriendshipStatus::Rejected);
    assert_eq!(reverse, None);
    assert!(store.get_friendship(bob.id, john.id).is_err());
}

#[test]
fn accepting_with_a_request_the_other_way_accepts_both() {
    let mut store = Store::new();
    let john = User::new(&mut store, "john".into(), "john@mail.com".into(), "pw".into(), at(1)).unwrap();
    let bob = User::new(&mut store, "bob".into(), "bob@mail.com".into(), "pw".into(), at(1)).unwrap();
    store.send_friend_request(john.id, bob.id, at(2)).unwrap();
    store.send_friend_request(bob.id, john.id, at(3)).unwrap();
    let (answered, reverse) = store
        .respond_to_friend_request(bob.id, john.id, FriendRequestResponse::Accept, at(4))
        .unwrap();
    assert_eq!(answered.status, FriendshipStatus::Accepted);
    let reverse = reverse.unwrap();
    assert_eq!((reverse.user_id, reverse.friend_id), (bob.id, john.id));
    assert_eq!(reverse.status, FriendshipStatus::Accepted);
    assert_eq!(reverse.created_at, at(3));
    assert_eq!(reverse.responded_at, Some(at(4)));
    assert_eq!(store.get_friendships(bob.id).len(), 1);
    assert_eq!(store.get_friendships(john.id).len(), 1);
    assert_eq!(store.get_friendship(bob.id, john.id).unwrap(), reverse);
    assert_eq!(
        john.accept_friend_request(&mut store, &bob, at(5)),
        Err(Error::PreconditionViolation)
    );
}

#[test]
fn response_maps_to_status() {
    assert_eq!(FriendshipStatus::from(FriendRequestResponse::Accept), FriendshipStatus::Accepted);
    assert_eq!(FriendshipStatus::from(FriendRequestResponse::Reject), FriendshipStatus::Rejected);
}
