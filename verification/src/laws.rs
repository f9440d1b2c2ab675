use crate::state::Store;
use vstd::prelude::*;

verus! {

/// Initialization: a store whose owner record holds identity `o` — the
/// state `Store::initialize(o)` ensures, whatever the store held before —
/// answers the owner query with exactly `o`, by `Store::get_owner`'s
/// contract over the same view.
pub proof fn lemma_initialization(post: Store, o: Seq<char>)
    requires
        post.owner_view() == Some(o),
    ensures
        post.owner_view() is Some,
        post.owner_view()->Some_0 == o,
{
}

/// Authorization barrier: a call that leaves the score ledger unchanged (as
/// every rejected mutation does, by `Store::set_score`'s contract) changes
/// no key's presence and no key's value, so every later lookup answers as it
/// would have before the call — including still failing for an absent key.
pub proof fn lemma_authorization_barrier(pre: Store, post: Store, k: (Seq<char>, Seq<char>))
    requires
        post.scores() == pre.scores(),
    ensures
        post.scores().contains_key(k) == pre.scores().contains_key(k),
        pre.scores().contains_key(k) ==> post.scores()[k] == pre.scores()[k],
{
}

/// Last-write-wins: after two successful writes to the same key — each one
/// an insertion into the score map, by `Store::set_score`'s contract — the
/// key holds the second value, whatever the first was.
pub proof fn lemma_last_write_wins(
    s0: Store,
    s1: Store,
    s2: Store,
    k: (Seq<char>, Seq<char>),
    v1: int,
    v2: int,
)
    requires
        s1.scores() == s0.scores().insert(k, v1),
        s2.scores() == s1.scores().insert(k, v2),
    ensures
        s2.scores().contains_key(k),
        s2.scores()[k] == v2,
{
}

/// Key isolation: a successful write to one key neither changes the value
/// held by any other key nor makes any other key appear or disappear.
pub proof fn lemma_key_isolation(
    pre: Store,
    post: Store,
    k1: (Seq<char>, Seq<char>),
    k2: (Seq<char>, Seq<char>),
    v: int,
)
    requires
        post.scores() == pre.scores().insert(k1, v),
        k2 != k1,
    ensures
        post.scores().contains_key(k2) == pre.scores().contains_key(k2),
        pre.scores().contains_key(k2) ==> post.scores()[k2] == pre.scores()[k2],
{
}

/// Absence: a key that is absent stays absent across a write to a different
/// key. Together with `Store::new`'s empty ledger, a key never written is
/// absent in every reachable store, so `Store::get_score` fails for it.
pub proof fn lemma_absence(
    pre: Store,
    post: Store,
    k1: (Seq<char>, Seq<char>),
    k2: (Seq<char>, Seq<char>),
    v: int,
)
    requires
        !pre.scores().contains_key(k2),
        post.scores() == pre.scores().insert(k1, v),
        k2 != k1,
    ensures
        !post.scores().contains_key(k2),
{
}

} // verus!
