use pallet_board::board::{Config, Error, Event, Pallet};
use pallet_board::hashing::Digest;

fn new_board() -> Pallet {
    Pallet::new(Config {
        max_posts_per_user: 10,
        max_comments_per_post: 10,
        max_observers_per_user: 10,
    })
}

fn digest_from_low_u64_be(v: u64) -> Digest {
    let mut bytes = [0u8; 32];
    bytes[24..32].copy_from_slice(&v.to_be_bytes());
    Digest::new(bytes)
}

#[test]
fn add_user_to_observed_user_list() {
    let mut board = new_board();
    let origin_account_id: u64 = 1;
    let target_address_id: u64 = 2;

    // Observe a single user.
    assert!(board.observe_user(origin_account_id, target_address_id).is_ok());

    // Check if user is observed.
    assert_eq!(board.observing(origin_account_id).first(), Some(&target_address_id));
}

#[test]
fn add_post_to_user_post_list() {
    let mut board = new_board();
    let origin_account_id: u64 = 1;

    assert!(board.create_post(origin_account_id, "test message".as_bytes().to_vec()).is_ok());

    assert_eq!(board.all_author_posts(origin_account_id).len(), 1);
}

#[test]
fn user_cannot_unobserve_user_that_is_not_observed() {
    let mut board = new_board();
    let origin_account_id: u64 = 1;

    assert_eq!(
        board.unobserve_user(origin_account_id, 2),
        Err(Error::CannotUnobserveUserThatIsNotObserved)
    );
}

#[test]
fn user_cannot_remove_post_that_does_not_exist() {
    let mut board = new_board();
    let origin_account_id: u64 = 1;

    assert_eq!(
        board.remove_post(origin_account_id, digest_from_low_u64_be(1)),
        Err(Error::CannotRemovePostThatDoesNotExist)
    );
}

#[test]
fn user_can_remove_post_that_he_created() {
    let mut board = new_board();
    let origin_account_id: u64 = 1;
    assert!(board.create_post(origin_account_id, "test message".as_bytes().to_vec()).is_ok());

    let post_id = *board.all_author_posts(origin_account_id).first().unwrap();

    assert_eq!(board.all_author_posts(origin_account_id).len(), 1);

    assert!(board.remove_post(origin_account_id, post_id).is_ok());

    assert_eq!(board.all_author_posts(origin_account_id).len(), 0);
}

#[test]
fn user_can_comment_other_user_post() {
    let mut board = new_board();
    let author_post_account_id = 1;
    let commenter_account_id = 2;

    assert!(board.create_post(author_post_account_id, "test message".as_bytes().to_vec()).is_ok());

    let post_id = *board.all_author_posts(author_post_account_id).first().unwrap();

    assert!(board
        .comment_post(commenter_account_id, "test comment".as_bytes().to_vec(), post_id)
        .is_ok());

    let comment_id = *board.post_comments(&post_id).first().unwrap();

    assert_eq!(board.post_comments(&post_id), vec![comment_id]);
    assert_eq!(board.all_comments(&comment_id).unwrap().post_id, post_id);
}

#[test]
fn user_cannot_comment_post_that_does_not_exists() {
    let mut board = new_board();
    let commenter_account_id = 1;
    let not_existing_post_id = 1;

    assert_eq!(
        board.comment_post(
            commenter_account_id,
            "test comment".as_bytes().to_vec(),
            digest_from_low_u64_be(not_existing_post_id)
        ),
        Err(Error::CannotCommentPostThatDoesNotExist)
    );
}

#[test]
fn same_message_yields_same_post_id_and_both_list_entries() {
    let mut board = new_board();

    assert!(board.create_post(1, "test message".as_bytes().to_vec()).is_ok());
    assert!(board.create_post(1, "test message".as_bytes().to_vec()).is_ok());

    let posts = board.all_author_posts(1);
    assert_eq!(posts.len(), 2);
    assert_eq!(posts[0], posts[1]);

    let stored = board.all_posts(&posts[0]).unwrap();
    assert_eq!(stored.author, 1);
    assert_eq!(stored.message, "test message".as_bytes().to_vec());
}

#[test]
fn different_messages_yield_different_post_ids() {
    let mut board = new_board();

    assert!(board.create_post(1, b"first".to_vec()).is_ok());
    assert!(board.create_post(1, b"second".to_vec()).is_ok());

    let posts = board.all_author_posts(1);
    assert_eq!(posts.len(), 2);
    assert_ne!(posts[0], posts[1]);
}

#[test]
fn post_list_capacity_is_enforced() {
    let mut board = Pallet::new(Config {
        max_posts_per_user: 2,
        max_comments_per_post: 10,
        max_observers_per_user: 10,
    });

    assert!(board.create_post(1, b"first".to_vec()).is_ok());
    assert!(board.create_post(1, b"second".to_vec()).is_ok());
    assert_eq!(board.create_post(1, b"third".to_vec()), Err(Error::ExceedMaxPostsPerUser));
    assert_eq!(board.all_author_posts(1).len(), 2);
}

#[test]
fn observe_list_capacity_is_enforced() {
    let mut board = Pallet::new(Config {
        max_posts_per_user: 10,
        max_comments_per_post: 10,
        max_observers_per_user: 1,
    });

    assert!(board.observe_user(1, 2).is_ok());
    assert_eq!(board.observe_user(1, 3), Err(Error::ExceedMaxObserversPerUser));
    assert_eq!(board.observing(1), vec![2]);
}

#[test]
fn comment_list_capacity_is_enforced() {
    let mut board = Pallet::new(Config {
        max_posts_per_user: 10,
        max_comments_per_post: 1,
        max_observers_per_user: 10,
    });

    assert!(board.create_post(1, b"post".to_vec()).is_ok());
    let post_id = *board.all_author_posts(1).first().unwrap();

    assert!(board.comment_post(2, b"first comment".to_vec(), post_id).is_ok());
    assert_eq!(
        board.comment_post(2, b"second comment".to_vec(), post_id),
        Err(Error::ExceedMaxCommentsPerPost)
    );
    assert_eq!(board.post_comments(&post_id).len(), 1);
}

#[test]
fn remove_post_fails_on_another_users_post() {
    let mut board = new_board();

    assert!(board.create_post(1, b"post".to_vec()).is_ok());
    let post_id = *board.all_author_posts(1).first().unwrap();

    // The post exists in user 1's list, but not in user 2's own list.
    assert_eq!(board.remove_post(2, post_id), Err(Error::CannotRemovePostThatDoesNotExist));
    assert_eq!(board.all_author_posts(1).len(), 1);
}

#[test]
fn failed_comment_creates_no_record_and_no_event() {
    let mut board = new_board();
    let missing = digest_from_low_u64_be(7);

    assert_eq!(
        board.comment_post(1, b"text".to_vec(), missing),
        Err(Error::CannotCommentPostThatDoesNotExist)
    );
    assert_eq!(board.post_comments(&missing).len(), 0);
    assert_eq!(board.events().len(), 0);
}

#[test]
fn observe_then_unobserve_target_is_a_net_no_op() {
    let mut board = new_board();

    assert!(board.observe_user(1, 2).is_ok());
    assert_eq!(board.observing(1), vec![2]);

    assert!(board.unobserve_user_target(1, 2).is_ok());
    assert_eq!(board.observing(1), Vec::<u64>::new());
}

#[test]
fn unobserve_user_matches_the_caller_not_the_target() {
    let mut board = new_board();

    // User 1 observes user 2, yet `unobserve_user` searches the list for an
    // entry equal to the caller (the historical behavior), so it fails.
    assert!(board.observe_user(1, 2).is_ok());
    assert_eq!(board.unobserve_user(1, 2), Err(Error::CannotUnobserveUserThatIsNotObserved));
    assert_eq!(board.observing(1), vec![2]);

    // Once an entry equal to the caller exists, it is the one removed,
    // whatever target is passed.
    assert!(board.observe_user(1, 1).is_ok());
    assert!(board.unobserve_user(1, 99).is_ok());
    assert_eq!(board.observing(1), vec![2]);
}

#[test]
fn every_successful_transition_emits_one_event() {
    let mut board = new_board();

    assert!(board.create_post(1, b"post".to_vec()).is_ok());
    let post_id = *board.all_author_posts(1).first().unwrap();
    assert!(board.comment_post(2, b"comment".to_vec(), post_id).is_ok());
    let comment_id = *board.post_comments(&post_id).first().unwrap();
    assert!(board.observe_user(1, 2).is_ok());
    assert!(board.unobserve_user_target(1, 2).is_ok());
    assert!(board.remove_post(1, post_id).is_ok());

    let events = board.events();
    assert_eq!(events.len(), 5);
    assert_eq!(events[0], Event::PostCreated(1, post_id));
    assert_eq!(events[1], Event::CommentCreated(2, comment_id));
    assert_eq!(events[2], Event::UserObserved(1, 2));
    assert_eq!(events[3], Event::UserUnobserved(1, 2));
    assert_eq!(events[4], Event::PostRemoved(1, post_id));
}

#[test]
fn duplicate_observations_are_kept() {
    let mut board = new_board();

    assert!(board.observe_user(1, 2).is_ok());
    assert!(board.observe_user(1, 2).is_ok());
    assert_eq!(board.observing(1), vec![2, 2]);
}

#[test]
fn empty_message_post_is_accepted() {
    let mut board = new_board();

    assert!(board.create_post(1, Vec::new()).is_ok());
    assert_eq!(board.all_author_posts(1).len(), 1);
}

#[test]
fn comment_stores_author_and_text() {
    let mut board = new_board();

    assert!(board.create_post(1, b"post".to_vec()).is_ok());
    let post_id = *board.all_author_posts(1).first().unwrap();
    assert!(board.comment_post(2, b"a comment".to_vec(), post_id).is_ok());
    let comment_id = *board.post_comments(&post_id).first().unwrap();

    let comment = board.all_comments(&comment_id).unwrap();
    assert_eq!(comment.author, 2);
    assert_eq!(comment.text, b"a comment".to_vec());
    assert_eq!(comment.post_id, post_id);
}
