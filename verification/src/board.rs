//! The board state machine: five caller-authenticated transitions over a
//! record store of content-addressed posts and comments and per-user bounded
//! lists.
//!
//! Every transition is atomic: it validates its preconditions first and either
//! commits all of its state changes together with exactly one emitted event,
//! or fails with a typed error and changes nothing.

use vstd::prelude::*;

use crate::alist::{
    alist_find, copy_vec, distinct_keys, find_index_digest, find_index_u64, lemma_find_none_iff,
    lemma_find_some_at, owner_list, upsert_digest,
};
use crate::bounded::{
    is_first_match, is_first_match_id, remove_first_equal, remove_first_id, swap_removed, try_push,
    try_push_by_id,
};
use crate::encoding::{encode_comment, encode_post, spec_encode_comment, spec_encode_post};
use crate::hashing::{blake2b_256, blake2b_256_of, Digest};

verus! {

/// The three deployment-fixed capacities; each must be positive.
#[derive(Clone, Copy, PartialEq, Eq, Debug)]
pub struct Config {
    pub max_posts_per_user: u32,
    pub max_comments_per_post: u32,
    pub max_observers_per_user: u32,
}

impl Config {
    pub open spec fn wf(self) -> bool {
        self.max_posts_per_user >= 1 && self.max_comments_per_post >= 1
            && self.max_observers_per_user >= 1
    }
}

/// A post record; its identity is the digest of its canonical encoding.
pub struct Post {
    pub author: u64,
    pub message: Vec<u8>,
}

/// The mathematical value of a post record.
pub struct PostView {
    pub author: u64,
    pub message: Seq<u8>,
}

impl View for Post {
    type V = PostView;

    open spec fn view(&self) -> PostView {
        PostView { author: self.author, message: self.message@ }
    }
}

/// A comment record; its identity is the digest of its canonical encoding.
pub struct Comment {
    pub author: u64,
    pub text: Vec<u8>,
    pub post_id: Digest,
}

/// The mathematical value of a comment record.
pub struct CommentView {
    pub author: u64,
    pub text: Seq<u8>,
    pub post_id: Seq<u8>,
}

impl View for Comment {
    type V = CommentView;

    open spec fn view(&self) -> CommentView {
        CommentView { author: self.author, text: self.text@, post_id: self.post_id@ }
    }
}

/// The typed failures of the five transitions.
#[derive(Clone, Copy, PartialEq, Eq, Debug)]
pub enum Error {
    ExceedMaxPostsPerUser,
    ExceedMaxCommentsPerPost,
    ExceedMaxObserversPerUser,
    CannotRemovePostThatDoesNotExist,
    CannotCommentPostThatDoesNotExist,
    CannotUnobserveUserThatIsNotObserved,
}

/// The domain event a successful transition emits: the caller and the
/// affected identifiers.
#[derive(Clone, Copy, PartialEq, Eq, Debug)]
pub enum Event {
    PostCreated(u64, Digest),
    PostRemoved(u64, Digest),
    CommentCreated(u64, Digest),
    UserObserved(u64, u64),
    UserUnobserved(u64, u64),
}

/// The mathematical value of an event.
pub enum EventView {
    PostCreated(u64, Seq<u8>),
    PostRemoved(u64, Seq<u8>),
    CommentCreated(u64, Seq<u8>),
    UserObserved(u64, u64),
    UserUnobserved(u64, u64),
}

impl View for Event {
    type V = EventView;

    open spec fn view(&self) -> EventView {
        match *self {
            Event::PostCreated(u, d) => EventView::PostCreated(u, d@),
            Event::PostRemoved(u, d) => EventView::PostRemoved(u, d@),
            Event::CommentCreated(u, d) => EventView::CommentCreated(u, d@),
            Event::UserObserved(u, v) => EventView::UserObserved(u, v),
            Event::UserUnobserved(u, v) => EventView::UserUnobserved(u, v),
        }
    }
}

/// The views of a sequence of content addresses.
pub open spec fn digests_view(s: Seq<Digest>) -> Seq<Seq<u8>> {
    s.map_values(|d: Digest| d@)
}

/// The identity of a post record: the digest of its canonical encoding.
pub open spec fn spec_post_id(author: u64, message: Seq<u8>) -> Seq<u8> {
    blake2b_256_of(spec_encode_post(author, message))
}

/// The identity of a comment record: the digest of its canonical encoding.
pub open spec fn spec_comment_id(author: u64, text: Seq<u8>, post_id: Seq<u8>) -> Seq<u8> {
    blake2b_256_of(spec_encode_comment(author, text, post_id))
}

/// The record store and the configured capacities. It exclusively owns its
/// tables: only the transitions below mutate them.
pub struct Pallet {
    config: Config,
    posts: Vec<(Digest, Post)>,
    comments: Vec<(Digest, Comment)>,
    author_posts: Vec<(u64, Vec<Digest>)>,
    post_comments: Vec<(Digest, Vec<Digest>)>,
    observing: Vec<(u64, Vec<u64>)>,
    events: Vec<Event>,
}

impl Pallet {
    /// The configured capacities.
    pub closed spec fn spec_config(self) -> Config {
        self.config
    }

    /// The post record stored under `id`, if any.
    pub closed spec fn spec_post(self, id: Seq<u8>) -> Option<PostView> {
        match alist_find(self.posts@, id) {
            Some(p) => Some(p@),
            None => None,
        }
    }

    /// The comment record stored under `id`, if any.
    pub closed spec fn spec_comment(self, id: Seq<u8>) -> Option<CommentView> {
        match alist_find(self.comments@, id) {
            Some(c) => Some(c@),
            None => None,
        }
    }

    /// The author's post list, in insertion order.
    pub closed spec fn spec_author_posts(self, author: u64) -> Seq<Seq<u8>> {
        digests_view(owner_list(self.author_posts@, author))
    }

    /// The post's comment list, in insertion order.
    pub closed spec fn spec_post_comments(self, post_id: Seq<u8>) -> Seq<Seq<u8>> {
        digests_view(owner_list(self.post_comments@, post_id))
    }

    /// The user's observe list, in insertion order.
    pub closed spec fn spec_observing(self, user: u64) -> Seq<u64> {
        owner_list(self.observing@, user)
    }

    /// The events emitted so far, in order.
    pub closed spec fn spec_events(self) -> Seq<EventView> {
        self.events@.map_values(|e: Event| e@)
    }

    /// The posts tables of `self` and `other` agree.
    pub open spec fn posts_same(self, other: Pallet) -> bool {
        forall|x: Seq<u8>| #[trigger] self.spec_post(x) == other.spec_post(x)
    }

    /// The comments tables of `self` and `other` agree.
    pub open spec fn comments_same(self, other: Pallet) -> bool {
        forall|x: Seq<u8>| #[trigger] self.spec_comment(x) == other.spec_comment(x)
    }

    /// All post lists of `self` and `other` agree.
    pub open spec fn author_posts_same(self, other: Pallet) -> bool {
        forall|u: u64| #[trigger] self.spec_author_posts(u) == other.spec_author_posts(u)
    }

    /// All comment lists of `self` and `other` agree.
    pub open spec fn post_comments_same(self, other: Pallet) -> bool {
        forall|x: Seq<u8>| #[trigger] self.spec_post_comments(x) == other.spec_post_comments(x)
    }

    /// All observe lists of `self` and `other` agree.
    pub open spec fn observing_same(self, other: Pallet) -> bool {
        forall|u: u64| #[trigger] self.spec_observing(u) == other.spec_observing(u)
    }

    /// `self` and `other` agree on every observable: a failed transition
    /// leaves the store in this relation to its pre-state.
    pub open spec fn state_same(self, other: Pallet) -> bool {
        &&& self.posts_same(other)
        &&& self.comments_same(other)
        &&& self.author_posts_same(other)
        &&& self.post_comments_same(other)
        &&& self.observing_same(other)
        &&& self.spec_events() == other.spec_events()
        &&& self.spec_config() == other.spec_config()
    }

    /// Well-formedness: positive capacities, pairwise-distinct table keys,
    /// every bounded list within its capacity, and referential consistency --
    /// every identifier in a post or comment list has a record in its table.
    pub closed spec fn wf(self) -> bool {
        &&& self.config.wf()
        &&& distinct_keys(self.posts@)
        &&& distinct_keys(self.comments@)
        &&& distinct_keys(self.author_posts@)
        &&& distinct_keys(self.post_comments@)
        &&& distinct_keys(self.observing@)
        &&& forall|u: u64|
            (#[trigger] self.spec_author_posts(u)).len() <= self.config.max_posts_per_user
        &&& forall|u: u64|
            (#[trigger] self.spec_observing(u)).len() <= self.config.max_observers_per_user
        &&& forall|x: Seq<u8>|
            (#[trigger] self.spec_post_comments(x)).len() <= self.config.max_comments_per_post
        &&& forall|u: u64, j: int|
            0 <= j < self.spec_author_posts(u).len() ==> self.spec_post(
                #[trigger] self.spec_author_posts(u)[j],
            ) is Some
        &&& forall|x: Seq<u8>, j: int|
            0 <= j < self.spec_post_comments(x).len() ==> self.spec_comment(
                #[trigger] self.spec_post_comments(x)[j],
            ) is Some
    }

    /// Well-formedness depends only on the capacities and the five tables'
    /// contents.
    proof fn lemma_wf_congruence(a: Pallet, b: Pallet)
        requires
            a.wf(),
            b.config == a.config,
            b.posts@ == a.posts@,
            b.comments@ == a.comments@,
            b.author_posts@ == a.author_posts@,
            b.post_comments@ == a.post_comments@,
            b.observing@ == a.observing@,
        ensures
            b.wf(),
    {
        assert forall|u: u64|
            (#[trigger] b.spec_author_posts(u)).len() <= b.config.max_posts_per_user by {
            assert(b.spec_author_posts(u) == a.spec_author_posts(u));
        }
        assert forall|u: u64|
            (#[trigger] b.spec_observing(u)).len() <= b.config.max_observers_per_user by {
            assert(b.spec_observing(u) == a.spec_observing(u));
        }
        assert forall|x: Seq<u8>|
            (#[trigger] b.spec_post_comments(x)).len() <= b.config.max_comments_per_post by {
            assert(b.spec_post_comments(x) == a.spec_post_comments(x));
        }
        assert forall|u: u64, j: int|
            0 <= j < b.spec_author_posts(u).len() implies b.spec_post(
            #[trigger] b.spec_author_posts(u)[j],
        ) is Some by {
            assert(b.spec_author_posts(u) == a.spec_author_posts(u));
            assert(a.spec_post(a.spec_author_posts(u)[j]) is Some);
            assert(b.spec_post(b.spec_author_posts(u)[j]) == a.spec_post(a.spec_author_posts(u)[j]));
        }
        assert forall|x: Seq<u8>, j: int|
            0 <= j < b.spec_post_comments(x).len() implies b.spec_comment(
            #[trigger] b.spec_post_comments(x)[j],
        ) is Some by {
            assert(b.spec_post_comments(x) == a.spec_post_comments(x));
            assert(a.spec_comment(a.spec_post_comments(x)[j]) is Some);
            assert(b.spec_comment(b.spec_post_comments(x)[j]) == a.spec_comment(
                a.spec_post_comments(x)[j],
            ));
        }
    }

    /// Well-formedness survives a change confined to the observe table,
    /// provided that table keeps distinct keys and bounded lists.
    proof fn lemma_wf_except_observing(a: Pallet, b: Pallet)
        requires
            a.wf(),
            b.config == a.config,
            b.posts@ == a.posts@,
            b.comments@ == a.comments@,
            b.author_posts@ == a.author_posts@,
            b.post_comments@ == a.post_comments@,
            distinct_keys(b.observing@),
            forall|u: u64|
                (#[trigger] b.spec_observing(u)).len() <= b.config.max_observers_per_user,
        ensures
            b.wf(),
    {
        assert forall|u: u64|
            (#[trigger] b.spec_author_posts(u)).len() <= b.config.max_posts_per_user by {
            assert(b.spec_author_posts(u) == a.spec_author_posts(u));
        }
        assert forall|x: Seq<u8>|
            (#[trigger] b.spec_post_comments(x)).len() <= b.config.max_comments_per_post by {
            assert(b.spec_post_comments(x) == a.spec_post_comments(x));
        }
        assert forall|u: u64, j: int|
            0 <= j < b.spec_author_posts(u).len() implies b.spec_post(
            #[trigger] b.spec_author_posts(u)[j],
        ) is Some by {
            assert(b.spec_author_posts(u) == a.spec_author_posts(u));
            assert(a.spec_post(a.spec_author_posts(u)[j]) is Some);
            assert(b.spec_post(b.spec_author_posts(u)[j]) == a.spec_post(a.spec_author_posts(u)[j]));
        }
        assert forall|x: Seq<u8>, j: int|
            0 <= j < b.spec_post_comments(x).len() implies b.spec_comment(
            #[trigger] b.spec_post_comments(x)[j],
        ) is Some by {
            assert(b.spec_post_comments(x) == a.spec_post_comments(x));
            assert(a.spec_comment(a.spec_post_comments(x)[j]) is Some);
            assert(b.spec_comment(b.spec_post_comments(x)[j]) == a.spec_comment(
                a.spec_post_comments(x)[j],
            ));
        }
    }

    /// An empty record store under the given capacities.
    pub fn new(config: Config) -> (r: Pallet)
        requires
            config.wf(),
        ensures
            r.wf(),
            r.spec_config() == config,
            forall|x: Seq<u8>| (#[trigger] r.spec_post(x)) is None,
            forall|x: Seq<u8>| (#[trigger] r.spec_comment(x)) is None,
            forall|u: u64| #[trigger] r.spec_author_posts(u) == Seq::<Seq<u8>>::empty(),
            forall|x: Seq<u8>| #[trigger] r.spec_post_comments(x) == Seq::<Seq<u8>>::empty(),
            forall|u: u64| #[trigger] r.spec_observing(u) == Seq::<u64>::empty(),
            r.spec_events() == Seq::<EventView>::empty(),
    {
        let r = Pallet {
            config,
            posts: Vec::new(),
            comments: Vec::new(),
            author_posts: Vec::new(),
            post_comments: Vec::new(),
            observing: Vec::new(),
            events: Vec::new(),
        };
        proof {
            assert forall|u: u64| #[trigger] r.spec_author_posts(u) == Seq::<Seq<u8>>::empty() by {
                assert(digests_view(Seq::<Digest>::empty()) =~= Seq::<Seq<u8>>::empty());
            }
            assert forall|x: Seq<u8>| #[trigger] r.spec_post_comments(x) == Seq::<
                Seq<u8>,
            >::empty() by {
                assert(digests_view(Seq::<Digest>::empty()) =~= Seq::<Seq<u8>>::empty());
            }
            assert(r.spec_events() =~= Seq::<EventView>::empty());
        }
        r
    }

    /// Appends one event; every table is left as it was.
    fn push_event(&mut self, e: Event)
        ensures
            final(self).spec_events() == old(self).spec_events().push(e@),
            final(self).posts_same(*old(self)),
            final(self).comments_same(*old(self)),
            final(self).author_posts_same(*old(self)),
            final(self).post_comments_same(*old(self)),
            final(self).observing_same(*old(self)),
            final(self).spec_config() == old(self).spec_config(),
            old(self).wf() ==> final(self).wf(),
    {
        self.events.push(e);
        proof {
            assert(self.spec_events() =~= old(self).spec_events().push(e@));
            if old(self).wf() {
                Self::lemma_wf_congruence(*old(self), *self);
            }
        }
    }

    /// Starts observing `target`: appends it to the caller's observe list.
    /// No self- or duplicate-observation check is made. Fails exactly when
    /// the caller's observe list is at capacity.
    pub fn observe_user(&mut self, caller: u64, target: u64) -> (r: Result<(), Error>)
        requires
            old(self).wf(),
        ensures
            final(self).wf(),
            final(self).spec_config() == old(self).spec_config(),
            match r {
                Ok(()) => {
                    &&& old(self).spec_observing(caller).len() < old(
                        self,
                    ).spec_config().max_observers_per_user
                    &&& user_observed(*old(self), *final(self), caller, target)
                    &&& final(self).spec_events() == old(self).spec_events().push(
                        EventView::UserObserved(caller, target),
                    )
                },
                Err(e) => {
                    &&& e == Error::ExceedMaxObserversPerUser
                    &&& old(self).spec_observing(caller).len() >= old(
                        self,
                    ).spec_config().max_observers_per_user
                    &&& final(self).state_same(*old(self))
                },
            },
    {
        let cap = self.config.max_observers_per_user;
        match try_push(&mut self.observing, caller, cap, target) {
            Ok(()) => {
                proof {
                    assert forall|u: u64|
                        (#[trigger] self.spec_observing(u)).len()
                            <= self.config.max_observers_per_user by {
                        if u != caller {
                            assert(self.spec_observing(u) == old(self).spec_observing(u));
                        }
                    }
                    Self::lemma_wf_except_observing(*old(self), *self);
                }
                self.push_event(Event::UserObserved(caller, target));
                Ok(())
            },
            Err(_) => {
                proof {
                    Self::lemma_wf_congruence(*old(self), *self);
                }
                Err(Error::ExceedMaxObserversPerUser)
            },
        }
    }

    /// Stops observing: removes the first entry of the caller's observe list
    /// that equals the caller's own identifier, by swap-with-last-then-pop.
    /// This keeps the historical matching on the caller rather than on
    /// `target`; [`Self::unobserve_user_target`] matches the argument
    /// instead. Fails exactly when no entry equals the caller.
    pub fn unobserve_user(&mut self, caller: u64, target: u64) -> (r: Result<(), Error>)
        requires
            old(self).wf(),
        ensures
            final(self).wf(),
            final(self).spec_config() == old(self).spec_config(),
            match r {
                Ok(()) => {
                    &&& old(self).spec_observing(caller).contains(caller)
                    &&& user_unobserved(*old(self), *final(self), caller, caller)
                    &&& final(self).spec_events() == old(self).spec_events().push(
                        EventView::UserUnobserved(caller, target),
                    )
                },
                Err(e) => {
                    &&& e == Error::CannotUnobserveUserThatIsNotObserved
                    &&& !old(self).spec_observing(caller).contains(caller)
                    &&& final(self).state_same(*old(self))
                },
            },
    {
        match remove_first_equal(&mut self.observing, caller, caller) {
            Ok(()) => {
                proof {
                    assert forall|u: u64|
                        (#[trigger] self.spec_observing(u)).len()
                            <= self.config.max_observers_per_user by {
                        if u != caller {
                            assert(self.spec_observing(u) == old(self).spec_observing(u));
                        } else {
                            let i = choose|i: int|
                                is_first_match(old(self).spec_observing(caller), caller, i)
                                    && self.spec_observing(caller) == swap_removed(
                                    old(self).spec_observing(caller),
                                    i,
                                );
                            assert(self.spec_observing(caller).len() == old(self).spec_observing(
                                caller,
                            ).len() - 1);
                        }
                    }
                    Self::lemma_wf_except_observing(*old(self), *self);
                }
                self.push_event(Event::UserUnobserved(caller, target));
                Ok(())
            },
            Err(_) => {
                proof {
                    Self::lemma_wf_congruence(*old(self), *self);
                }
                Err(Error::CannotUnobserveUserThatIsNotObserved)
            },
        }
    }

    /// Stops observing `target`: removes the first entry of the caller's
    /// observe list that equals `target`, by swap-with-last-then-pop. Fails
    /// exactly when no entry equals `target`.
    pub fn unobserve_user_target(&mut self, caller: u64, target: u64) -> (r: Result<(), Error>)
        requires
            old(self).wf(),
        ensures
            final(self).wf(),
            final(self).spec_config() == old(self).spec_config(),
            match r {
                Ok(()) => {
                    &&& old(self).spec_observing(caller).contains(target)
                    &&& user_unobserved(*old(self), *final(self), caller, target)
                    &&& final(self).spec_events() == old(self).spec_events().push(
                        EventView::UserUnobserved(caller, target),
                    )
                },
                Err(e) => {
                    &&& e == Error::CannotUnobserveUserThatIsNotObserved
                    &&& !old(self).spec_observing(caller).contains(target)
                    &&& final(self).state_same(*old(self))
                },
            },
    {
        match remove_first_equal(&mut self.observing, caller, target) {
            Ok(()) => {
                proof {
                    assert forall|u: u64|
                        (#[trigger] self.spec_observing(u)).len()
                            <= self.config.max_observers_per_user by {
                        if u != caller {
                            assert(self.spec_observing(u) == old(self).spec_observing(u));
                        } else {
                            let i = choose|i: int|
                                is_first_match(old(self).spec_observing(caller), target, i)
                                    && self.spec_observing(caller) == swap_removed(
                                    old(self).spec_observing(caller),
                                    i,
                                );
                            assert(self.spec_observing(caller).len() == old(self).spec_observing(
                                caller,
                            ).len() - 1);
                        }
                    }
                    Self::lemma_wf_except_observing(*old(self), *self);
                }
                self.push_event(Event::UserUnobserved(caller, target));
                Ok(())
            },
            Err(_) => {
                proof {
                    Self::lemma_wf_congruence(*old(self), *self);
                }
                Err(Error::CannotUnobserveUserThatIsNotObserved)
            },
        }
    }

    /// Well-formedness survives a change confined to the posts table and the
    /// post lists, provided no stored record disappears and the new lists are
    /// bounded and backed by records.
    proof fn lemma_wf_except_posts(a: Pallet, b: Pallet)
        requires
            a.wf(),
            b.config == a.config,
            b.comments@ == a.comments@,
            b.post_comments@ == a.post_comments@,
            b.observing@ == a.observing@,
            distinct_keys(b.posts@),
            distinct_keys(b.author_posts@),
            forall|u: u64|
                (#[trigger] b.spec_author_posts(u)).len() <= b.config.max_posts_per_user,
            forall|u: u64, j: int|
                0 <= j < b.spec_author_posts(u).len() ==> b.spec_post(
                    #[trigger] b.spec_author_posts(u)[j],
                ) is Some,
        ensures
            b.wf(),
    {
        assert forall|u: u64|
            (#[trigger] b.spec_observing(u)).len() <= b.config.max_observers_per_user by {
            assert(b.spec_observing(u) == a.spec_observing(u));
        }
        assert forall|x: Seq<u8>|
            (#[trigger] b.spec_post_comments(x)).len() <= b.config.max_comments_per_post by {
            assert(b.spec_post_comments(x) == a.spec_post_comments(x));
        }
        assert forall|x: Seq<u8>, j: int|
            0 <= j < b.spec_post_comments(x).len() implies b.spec_comment(
            #[trigger] b.spec_post_comments(x)[j],
        ) is Some by {
            assert(b.spec_post_comments(x) == a.spec_post_comments(x));
            assert(a.spec_comment(a.spec_post_comments(x)[j]) is Some);
            assert(b.spec_comment(b.spec_post_comments(x)[j]) == a.spec_comment(
                a.spec_post_comments(x)[j],
            ));
        }
    }

    /// Well-formedness survives a change confined to the comments table and
    /// the comment lists, provided no stored record disappears and the new
    /// lists are bounded and backed by records.
    proof fn lemma_wf_except_comments(a: Pallet, b: Pallet)
        requires
            a.wf(),
            b.config == a.config,
            b.posts@ == a.posts@,
            b.author_posts@ == a.author_posts@,
            b.observing@ == a.observing@,
            distinct_keys(b.comments@),
            distinct_keys(b.post_comments@),
            forall|x: Seq<u8>|
                (#[trigger] b.spec_post_comments(x)).len() <= b.config.max_comments_per_post,
            forall|x: Seq<u8>, j: int|
                0 <= j < b.spec_post_comments(x).len() ==> b.spec_comment(
                    #[trigger] b.spec_post_comments(x)[j],
                ) is Some,
        ensures
            b.wf(),
    {
        assert forall|u: u64|
            (#[trigger] b.spec_observing(u)).len() <= b.config.max_observers_per_user by {
            assert(b.spec_observing(u) == a.spec_observing(u));
        }
        assert forall|u: u64|
            (#[trigger] b.spec_author_posts(u)).len() <= b.config.max_posts_per_user by {
            assert(b.spec_author_posts(u) == a.spec_author_posts(u));
        }
        assert forall|u: u64, j: int|
            0 <= j < b.spec_author_posts(u).len() implies b.spec_post(
            #[trigger] b.spec_author_posts(u)[j],
        ) is Some by {
            assert(b.spec_author_posts(u) == a.spec_author_posts(u));
            assert(a.spec_post(a.spec_author_posts(u)[j]) is Some);
            assert(b.spec_post(b.spec_author_posts(u)[j]) == a.spec_post(a.spec_author_posts(u)[j]));
        }
    }

    /// Mints a post: stores the record under the digest of its canonical
    /// encoding (an idempotent insert) and appends that identifier to the
    /// author's post list. Fails exactly when the author's post list is at
    /// capacity, and then changes nothing.
    pub fn mint_post(&mut self, author: u64, message: Vec<u8>) -> (r: Result<Digest, Error>)
        requires
            old(self).wf(),
        ensures
            final(self).wf(),
            final(self).spec_config() == old(self).spec_config(),
            final(self).spec_events() == old(self).spec_events(),
            match r {
                Ok(id) => {
                    &&& id@ == spec_post_id(author, message@)
                    &&& old(self).spec_author_posts(author).len() < old(
                        self,
                    ).spec_config().max_posts_per_user
                    &&& post_record_inserted(*old(self), *final(self), author, message@)
                },
                Err(e) => {
                    &&& e == Error::ExceedMaxPostsPerUser
                    &&& old(self).spec_author_posts(author).len() >= old(
                        self,
                    ).spec_config().max_posts_per_user
                    &&& final(self).state_same(*old(self))
                },
            },
    {
        let encoding = encode_post(author, &message);
        let id = blake2b_256(&encoding);
        let cap = self.config.max_posts_per_user;
        match try_push(&mut self.author_posts, author, cap, id) {
            Ok(()) => {
                let ghost pid = spec_post_id(author, message@);
                let post = Post { author, message };
                upsert_digest(&mut self.posts, id, post);
                proof {
                    assert(self.spec_author_posts(author) =~= old(self).spec_author_posts(
                        author,
                    ).push(pid));
                    assert forall|u: u64| u != author implies #[trigger] self.spec_author_posts(u)
                        == old(self).spec_author_posts(u) by {
                        assert(owner_list(self.author_posts@, u) == owner_list(
                            old(self).author_posts@,
                            u,
                        ));
                    }
                    assert forall|x: Seq<u8>| x != pid implies #[trigger] self.spec_post(x) == old(
                        self,
                    ).spec_post(x) by {}
                    assert(self.spec_post(pid) == Some(PostView { author, message: message@ }));
                    assert forall|u: u64|
                        (#[trigger] self.spec_author_posts(u)).len()
                            <= self.config.max_posts_per_user by {
                        if u != author {
                            assert(self.spec_author_posts(u) == old(self).spec_author_posts(u));
                        }
                    }
                    assert forall|u: u64, j: int|
                        0 <= j < self.spec_author_posts(u).len() implies self.spec_post(
                        #[trigger] self.spec_author_posts(u)[j],
                    ) is Some by {
                        let x = self.spec_author_posts(u)[j];
                        if u == author {
                            if j < old(self).spec_author_posts(author).len() {
                                assert(x == old(self).spec_author_posts(author)[j]);
                                assert(old(self).spec_post(x) is Some);
                            } else {
                                assert(x == pid);
                            }
                        } else {
                            assert(self.spec_author_posts(u) == old(self).spec_author_posts(u));
                            assert(old(self).spec_post(x) is Some);
                        }
                    }
                    Self::lemma_wf_except_posts(*old(self), *self);
                }
                Ok(id)
            },
            Err(_) => {
                proof {
                    Self::lemma_wf_congruence(*old(self), *self);
                }
                Err(Error::ExceedMaxPostsPerUser)
            },
        }
    }

    /// Publishes a post on the caller's board: mints the record and emits the
    /// event carrying the caller and the new post's identifier. Fails exactly
    /// when the caller's post list is at capacity.
    pub fn create_post(&mut self, caller: u64, message: Vec<u8>) -> (r: Result<(), Error>)
        requires
            old(self).wf(),
        ensures
            final(self).wf(),
            final(self).spec_config() == old(self).spec_config(),
            match r {
                Ok(()) => {
                    &&& old(self).spec_author_posts(caller).len() < old(
                        self,
                    ).spec_config().max_posts_per_user
                    &&& post_record_inserted(*old(self), *final(self), caller, message@)
                    &&& final(self).spec_events() == old(self).spec_events().push(
                        EventView::PostCreated(caller, spec_post_id(caller, message@)),
                    )
                },
                Err(e) => {
                    &&& e == Error::ExceedMaxPostsPerUser
                    &&& old(self).spec_author_posts(caller).len() >= old(
                        self,
                    ).spec_config().max_posts_per_user
                    &&& final(self).state_same(*old(self))
                },
            },
    {
        match self.mint_post(caller, message) {
            Ok(id) => {
                let ghost mid = *self;
                self.push_event(Event::PostCreated(caller, id));
                proof {
                    let ghost a = *old(self);
                    assert(post_record_inserted(a, *self, caller, message@)) by {
                        let pid = spec_post_id(caller, message@);
                        assert(self.spec_post(pid) == mid.spec_post(pid));
                        assert(self.spec_author_posts(caller) == mid.spec_author_posts(caller));
                        assert forall|x: Seq<u8>| x != pid implies #[trigger] self.spec_post(x)
                            == a.spec_post(x) by {
                            assert(self.spec_post(x) == mid.spec_post(x));
                        }
                        assert forall|u: u64| u != caller implies #[trigger] self.spec_author_posts(
                            u,
                        ) == a.spec_author_posts(u) by {
                            assert(self.spec_author_posts(u) == mid.spec_author_posts(u));
                        }
                        assert forall|x: Seq<u8>| #[trigger] self.spec_comment(x) == a.spec_comment(
                            x,
                        ) by {
                            assert(self.spec_comment(x) == mid.spec_comment(x));
                        }
                        assert forall|x: Seq<u8>| #[trigger] self.spec_post_comments(x)
                            == a.spec_post_comments(x) by {
                            assert(self.spec_post_comments(x) == mid.spec_post_comments(x));
                        }
                        assert forall|u: u64| #[trigger] self.spec_observing(u) == a.spec_observing(
                            u,
                        ) by {
                            assert(self.spec_observing(u) == mid.spec_observing(u));
                        }
                    }
                }
                Ok(())
            },
            Err(e) => Err(e),
        }
    }

    /// Withdraws a post from the caller's own post list by
    /// swap-with-last-then-pop; the stored record itself is retained. Fails
    /// exactly when the identifier is not in the caller's list, wherever else
    /// it may appear.
    pub fn remove_post(&mut self, caller: u64, post_id: Digest) -> (r: Result<(), Error>)
        requires
            old(self).wf(),
        ensures
            final(self).wf(),
            final(self).spec_config() == old(self).spec_config(),
            match r {
                Ok(()) => {
                    &&& old(self).spec_author_posts(caller).contains(post_id@)
                    &&& post_removed(*old(self), *final(self), caller, post_id@)
                    &&& final(self).spec_events() == old(self).spec_events().push(
                        EventView::PostRemoved(caller, post_id@),
                    )
                },
                Err(e) => {
                    &&& e == Error::CannotRemovePostThatDoesNotExist
                    &&& !old(self).spec_author_posts(caller).contains(post_id@)
                    &&& final(self).state_same(*old(self))
                },
            },
    {
        match remove_first_id(&mut self.author_posts, caller, &post_id) {
            Ok(()) => {
                proof {
                    let s0 = owner_list(old(self).author_posts@, caller);
                    let i = choose|i: int|
                        is_first_match_id(s0, post_id@, i) && owner_list(self.author_posts@, caller)
                            == swap_removed(s0, i);
                    assert(is_first_match(old(self).spec_author_posts(caller), post_id@, i)) by {
                        assert forall|j: int| 0 <= j < i implies old(self).spec_author_posts(
                            caller,
                        )[j] != post_id@ by {
                            assert((#[trigger] s0[j])@ != post_id@);
                        }
                    }
                    assert(self.spec_author_posts(caller) =~= swap_removed(
                        old(self).spec_author_posts(caller),
                        i,
                    ));
                    assert(is_first_match(old(self).spec_author_posts(caller), post_id@, i)
                        && self.spec_author_posts(caller) == swap_removed(
                        old(self).spec_author_posts(caller),
                        i,
                    ));
                    assert forall|u: u64| u != caller implies #[trigger] self.spec_author_posts(u)
                        == old(self).spec_author_posts(u) by {
                        assert(owner_list(self.author_posts@, u) == owner_list(
                            old(self).author_posts@,
                            u,
                        ));
                    }
                    assert forall|u: u64|
                        (#[trigger] self.spec_author_posts(u)).len()
                            <= self.config.max_posts_per_user by {
                        if u != caller {
                            assert(self.spec_author_posts(u) == old(self).spec_author_posts(u));
                        }
                    }
                    assert forall|u: u64, j: int|
                        0 <= j < self.spec_author_posts(u).len() implies self.spec_post(
                        #[trigger] self.spec_author_posts(u)[j],
                    ) is Some by {
                        let x = self.spec_author_posts(u)[j];
                        if u == caller {
                            let pre = old(self).spec_author_posts(caller);
                            assert(x == if j == i {
                                pre.last()
                            } else {
                                pre[j]
                            });
                            assert(old(self).spec_post(x) is Some);
                        } else {
                            assert(self.spec_author_posts(u) == old(self).spec_author_posts(u));
                            assert(old(self).spec_post(x) is Some);
                        }
                        assert(self.spec_post(x) == old(self).spec_post(x));
                    }
                    Self::lemma_wf_except_posts(*old(self), *self);
                }
                self.push_event(Event::PostRemoved(caller, post_id));
                Ok(())
            },
            Err(_) => {
                proof {
                    assert forall|k: int|
                        0 <= k < old(self).spec_author_posts(caller).len() implies old(
                        self,
                    ).spec_author_posts(caller)[k] != post_id@ by {
                        assert((#[trigger] owner_list(old(self).author_posts@, caller)[k])@
                            != post_id@);
                    }
                    Self::lemma_wf_congruence(*old(self), *self);
                }
                Err(Error::CannotRemovePostThatDoesNotExist)
            },
        }
    }

    /// Comments on an existing post: stores the comment record under the
    /// digest of its canonical encoding, appends that identifier to the
    /// post's comment list, and emits the event carrying the caller and the
    /// new comment's identifier. Fails exactly when the post does not exist,
    /// or, for an existing post, when its comment list is at capacity; a
    /// failure changes nothing.
    pub fn comment_post(&mut self, caller: u64, text: Vec<u8>, post_id: Digest) -> (r: Result<
        (),
        Error,
    >)
        requires
            old(self).wf(),
        ensures
            final(self).wf(),
            final(self).spec_config() == old(self).spec_config(),
            match r {
                Ok(()) => {
                    &&& old(self).spec_post(post_id@) is Some
                    &&& old(self).spec_post_comments(post_id@).len() < old(
                        self,
                    ).spec_config().max_comments_per_post
                    &&& comment_record_inserted(*old(self), *final(self), caller, text@, post_id@)
                    &&& final(self).spec_events() == old(self).spec_events().push(
                        EventView::CommentCreated(
                            caller,
                            spec_comment_id(caller, text@, post_id@),
                        ),
                    )
                },
                Err(e) => {
                    &&& final(self).state_same(*old(self))
                    &&& if old(self).spec_post(post_id@) is None {
                        e == Error::CannotCommentPostThatDoesNotExist
                    } else {
                        e == Error::ExceedMaxCommentsPerPost && old(self).spec_post_comments(
                            post_id@,
                        ).len() >= old(self).spec_config().max_comments_per_post
                    }
                },
            },
    {
        match find_index_digest(&self.posts, &post_id) {
            None => {
                proof {
                    lemma_find_none_iff(self.posts@, post_id@);
                    Self::lemma_wf_congruence(*old(self), *self);
                }
                Err(Error::CannotCommentPostThatDoesNotExist)
            },
            Some(pi) => {
                proof {
                    lemma_find_some_at(self.posts@, post_id@, pi as int);
                }
                let encoding = encode_comment(caller, &text, &post_id);
                let id = blake2b_256(&encoding);
                let cap = self.config.max_comments_per_post;
                match try_push_by_id(&mut self.post_comments, &post_id, cap, id) {
                    Ok(()) => {
                        let ghost cid = spec_comment_id(caller, text@, post_id@);
                        let comment = Comment { author: caller, text, post_id };
                        upsert_digest(&mut self.comments, id, comment);
                        let ghost mid = *self;
                        proof {
                            assert(self.spec_post_comments(post_id@) =~= old(
                                self,
                            ).spec_post_comments(post_id@).push(cid));
                            assert forall|x: Seq<u8>| x != post_id@ implies
                                #[trigger] self.spec_post_comments(x) == old(
                                self,
                            ).spec_post_comments(x) by {
                                assert(owner_list(self.post_comments@, x) == owner_list(
                                    old(self).post_comments@,
                                    x,
                                ));
                            }
                            assert forall|x: Seq<u8>| x != cid implies #[trigger] self.spec_comment(
                                x,
                            ) == old(self).spec_comment(x) by {}
                            assert(self.spec_comment(cid) == Some(
                                CommentView { author: caller, text: text@, post_id: post_id@ },
                            ));
                            assert forall|x: Seq<u8>|
                                (#[trigger] self.spec_post_comments(x)).len()
                                    <= self.config.max_comments_per_post by {
                                if x != post_id@ {
                                    assert(self.spec_post_comments(x) == old(
                                        self,
                                    ).spec_post_comments(x));
                                }
                            }
                            assert forall|x: Seq<u8>, j: int|
                                0 <= j < self.spec_post_comments(x).len() implies self.spec_comment(
                                #[trigger] self.spec_post_comments(x)[j],
                            ) is Some by {
                                let y = self.spec_post_comments(x)[j];
                                if x == post_id@ {
                                    if j < old(self).spec_post_comments(post_id@).len() {
                                        assert(y == old(self).spec_post_comments(post_id@)[j]);
                                        assert(old(self).spec_comment(y) is Some);
                                    } else {
                                        assert(y == cid);
                                    }
                                } else {
                                    assert(self.spec_post_comments(x) == old(
                                        self,
                                    ).spec_post_comments(x));
                                    assert(old(self).spec_comment(y) is Some);
                                }
                            }
                            Self::lemma_wf_except_comments(*old(self), *self);
                        }
                        self.push_event(Event::CommentCreated(caller, id));
                        proof {
                            assert(comment_record_inserted(
                                *old(self),
                                *self,
                                caller,
                                text@,
                                post_id@,
                            )) by {
                                assert(self.spec_comment(cid) == mid.spec_comment(cid));
                                assert(self.spec_post_comments(post_id@) == mid.spec_post_comments(
                                    post_id@,
                                ));
                                assert forall|x: Seq<u8>| x != cid implies
                                    #[trigger] self.spec_comment(x) == old(self).spec_comment(
                                    x,
                                ) by {
                                    assert(self.spec_comment(x) == mid.spec_comment(x));
                                }
                                assert forall|x: Seq<u8>| x != post_id@ implies
                                    #[trigger] self.spec_post_comments(x) == old(
                                    self,
                                ).spec_post_comments(x) by {
                                    assert(self.spec_post_comments(x) == mid.spec_post_comments(x));
                                }
                                assert forall|x: Seq<u8>| #[trigger] self.spec_post(x) == old(
                                    self,
                                ).spec_post(x) by {
                                    assert(self.spec_post(x) == mid.spec_post(x));
                                }
                                assert forall|u: u64| #[trigger] self.spec_author_posts(u) == old(
                                    self,
                                ).spec_author_posts(u) by {
                                    assert(self.spec_author_posts(u) == mid.spec_author_posts(u));
                                }
                                assert forall|u: u64| #[trigger] self.spec_observing(u) == old(
                                    self,
                                ).spec_observing(u) by {
                                    assert(self.spec_observing(u) == mid.spec_observing(u));
                                }
                            }
                        }
                        Ok(())
                    },
                    Err(_) => {
                        proof {
                            Self::lemma_wf_congruence(*old(self), *self);
                        }
                        Err(Error::ExceedMaxCommentsPerPost)
                    },
                }
            },
        }
    }

    /// The post record stored under `post_id`, if any.
    pub fn all_posts(&self, post_id: &Digest) -> (r: Option<&Post>)
        ensures
            match r {
                Some(p) => self.spec_post(post_id@) == Some(p@),
                None => self.spec_post(post_id@) is None,
            },
    {
        match find_index_digest(&self.posts, post_id) {
            Some(i) => {
                proof {
                    lemma_find_some_at(self.posts@, post_id@, i as int);
                }
                Some(&self.posts[i].1)
            },
            None => {
                proof {
                    lemma_find_none_iff(self.posts@, post_id@);
                }
                None
            },
        }
    }

    /// The comment record stored under `comment_id`, if any.
    pub fn all_comments(&self, comment_id: &Digest) -> (r: Option<&Comment>)
        ensures
            match r {
                Some(c) => self.spec_comment(comment_id@) == Some(c@),
                None => self.spec_comment(comment_id@) is None,
            },
    {
        match find_index_digest(&self.comments, comment_id) {
            Some(i) => {
                proof {
                    lemma_find_some_at(self.comments@, comment_id@, i as int);
                }
                Some(&self.comments[i].1)
            },
            None => {
                proof {
                    lemma_find_none_iff(self.comments@, comment_id@);
                }
                None
            },
        }
    }

    /// The author's post list, in insertion order.
    pub fn all_author_posts(&self, author: u64) -> (r: Vec<Digest>)
        ensures
            digests_view(r@) == self.spec_author_posts(author),
    {
        match find_index_u64(&self.author_posts, author) {
            Some(i) => {
                proof {
                    lemma_find_some_at(self.author_posts@, author, i as int);
                }
                copy_vec(&self.author_posts[i].1)
            },
            None => {
                proof {
                    lemma_find_none_iff(self.author_posts@, author);
                }
                Vec::new()
            },
        }
    }

    /// The post's comment list, in insertion order.
    pub fn post_comments(&self, post_id: &Digest) -> (r: Vec<Digest>)
        ensures
            digests_view(r@) == self.spec_post_comments(post_id@),
    {
        match find_index_digest(&self.post_comments, post_id) {
            Some(i) => {
                proof {
                    lemma_find_some_at(self.post_comments@, post_id@, i as int);
                }
                copy_vec(&self.post_comments[i].1)
            },
            None => {
                proof {
                    lemma_find_none_iff(self.post_comments@, post_id@);
                }
                Vec::new()
            },
        }
    }

    /// The user's observe list, in insertion order.
    pub fn observing(&self, user: u64) -> (r: Vec<u64>)
        ensures
            r@ == self.spec_observing(user),
    {
        match find_index_u64(&self.observing, user) {
            Some(i) => {
                proof {
                    lemma_find_some_at(self.observing@, user, i as int);
                }
                copy_vec(&self.observing[i].1)
            },
            None => {
                proof {
                    lemma_find_none_iff(self.observing@, user);
                }
                Vec::new()
            },
        }
    }

    /// The events emitted so far, in order.
    pub fn events(&self) -> (r: &Vec<Event>)
        ensures
            r@.map_values(|e: Event| e@) == self.spec_events(),
    {
        &self.events
    }
}

/// A successful post mint: the record stands in the posts table under its
/// content address (overwriting any record already stored under it), and the
/// address is appended to the author's post list; every other observable is
/// unchanged (events aside).
pub open spec fn post_record_inserted(
    pre: Pallet,
    post: Pallet,
    author: u64,
    message: Seq<u8>,
) -> bool {
    let id = spec_post_id(author, message);
    &&& post.spec_post(id) == Some(PostView { author, message })
    &&& forall|x: Seq<u8>| x != id ==> #[trigger] post.spec_post(x) == pre.spec_post(x)
    &&& post.spec_author_posts(author) == pre.spec_author_posts(author).push(id)
    &&& forall|u: u64|
        u != author ==> #[trigger] post.spec_author_posts(u) == pre.spec_author_posts(u)
    &&& post.comments_same(pre)
    &&& post.post_comments_same(pre)
    &&& post.observing_same(pre)
}

/// A successful comment mint: the record stands in the comments table under
/// its content address (overwriting any record already stored under it), and
/// the address is appended to the post's comment list; every other
/// observable is unchanged (events aside).
pub open spec fn comment_record_inserted(
    pre: Pallet,
    post: Pallet,
    author: u64,
    text: Seq<u8>,
    post_id: Seq<u8>,
) -> bool {
    let id = spec_comment_id(author, text, post_id);
    &&& post.spec_comment(id) == Some(CommentView { author, text, post_id })
    &&& forall|x: Seq<u8>| x != id ==> #[trigger] post.spec_comment(x) == pre.spec_comment(x)
    &&& post.spec_post_comments(post_id) == pre.spec_post_comments(post_id).push(id)
    &&& forall|x: Seq<u8>|
        x != post_id ==> #[trigger] post.spec_post_comments(x) == pre.spec_post_comments(x)
    &&& post.posts_same(pre)
    &&& post.author_posts_same(pre)
    &&& post.observing_same(pre)
}

/// A successful post removal: the first entry of the caller's post list
/// whose view is `post_id` leaves by swap-with-last-then-pop; the stored
/// record is retained, and every other observable is unchanged (events
/// aside).
pub open spec fn post_removed(pre: Pallet, post: Pallet, caller: u64, post_id: Seq<u8>) -> bool {
    &&& exists|i: int|
        is_first_match(pre.spec_author_posts(caller), post_id, i) && post.spec_author_posts(caller)
            == swap_removed(pre.spec_author_posts(caller), i)
    &&& forall|u: u64|
        u != caller ==> #[trigger] post.spec_author_posts(u) == pre.spec_author_posts(u)
    &&& post.posts_same(pre)
    &&& post.comments_same(pre)
    &&& post.post_comments_same(pre)
    &&& post.observing_same(pre)
}

/// A successful observe step: `target` is appended to the caller's observe
/// list; every other observable is unchanged (events aside).
pub open spec fn user_observed(pre: Pallet, post: Pallet, caller: u64, target: u64) -> bool {
    &&& post.spec_observing(caller) == pre.spec_observing(caller).push(target)
    &&& forall|u: u64|
        u != caller ==> #[trigger] post.spec_observing(u) == pre.spec_observing(u)
    &&& post.posts_same(pre)
    &&& post.comments_same(pre)
    &&& post.author_posts_same(pre)
    &&& post.post_comments_same(pre)
}

/// A successful unobserve step: the first entry of the caller's observe list
/// equal to `removed` leaves by swap-with-last-then-pop; every other
/// observable is unchanged (events aside).
pub open spec fn user_unobserved(pre: Pallet, post: Pallet, caller: u64, removed: u64) -> bool {
    &&& exists|i: int|
        is_first_match(pre.spec_observing(caller), removed, i) && post.spec_observing(caller)
            == swap_removed(pre.spec_observing(caller), i)
    &&& forall|u: u64|
        u != caller ==> #[trigger] post.spec_observing(u) == pre.spec_observing(u)
    &&& post.posts_same(pre)
    &&& post.comments_same(pre)
    &&& post.author_posts_same(pre)
    &&& post.post_comments_same(pre)
}

/// Content addressing is idempotent: minting the same message for the same
/// author twice yields the same identifier both times, and the duplicate is
/// not deduplicated in the author's post list -- only in the table, where
/// the second mint overwrites the first record.
pub proof fn lemma_same_content_same_id(
    s0: Pallet,
    s1: Pallet,
    s2: Pallet,
    author: u64,
    message: Seq<u8>,
)
    requires
        post_record_inserted(s0, s1, author, message),
        post_record_inserted(s1, s2, author, message),
    ensures
        s2.spec_author_posts(author).len() == s0.spec_author_posts(author).len() + 2,
        s2.spec_author_posts(author).last() == spec_post_id(author, message),
        s2.spec_author_posts(author)[s2.spec_author_posts(author).len() - 2] == spec_post_id(
            author,
            message,
        ),
        s2.spec_post(spec_post_id(author, message)) == Some(PostView { author, message }),
{
}

/// No author's post list ever exceeds the configured capacity; together with
/// the contract of `create_post` (which fails with the capacity error if and
/// only if the list is full, changing nothing), a publish after
/// `max_posts_per_user` successes must fail and leave the list at capacity.
pub proof fn lemma_author_posts_bounded(s: Pallet, author: u64)
    requires
        s.wf(),
    ensures
        s.spec_author_posts(author).len() <= s.spec_config().max_posts_per_user,
{
}

/// Observing then unobserving the same target restores every observe list:
/// the removal takes the first entry equal to the target, swaps the last
/// entry -- the one just pushed, equal to it -- into its place, and pops.
pub proof fn lemma_observe_unobserve_roundtrip(
    s0: Pallet,
    s1: Pallet,
    s2: Pallet,
    caller: u64,
    target: u64,
)
    requires
        user_observed(s0, s1, caller, target),
        user_unobserved(s1, s2, caller, target),
    ensures
        forall|u: u64| #[trigger] s2.spec_observing(u) == s0.spec_observing(u),
{
    let pre = s0.spec_observing(caller);
    let l1 = s1.spec_observing(caller);
    let i = choose|i: int|
        is_first_match(l1, target, i) && s2.spec_observing(caller) == swap_removed(l1, i);
    assert(l1[i] == target);
    assert(l1.last() == target);
    assert(swap_removed(l1, i) =~= pre);
    assert forall|u: u64| #[trigger] s2.spec_observing(u) == s0.spec_observing(u) by {
        if u != caller {
            assert(s2.spec_observing(u) == s1.spec_observing(u));
            assert(s1.spec_observing(u) == s0.spec_observing(u));
        }
    }
}

} // verus!
