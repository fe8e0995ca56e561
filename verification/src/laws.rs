//! Laws of the store: properties that relate several operations, stated over
//! the model and proved once for every well-formed store.

use vstd::prelude::*;

use crate::model::{
    board_counter, board_idx, is_reply_to, is_root_of, lemma_alloc_wf, lemma_push_post_wf,
    lemma_root_idx_unique, lemma_same_posts_lookup, post_valid, root_idx, spec_alloc,
    spec_board_exists, spec_create_post, spec_create_thread, spec_get_thread, spec_replies,
    spec_reply_post, spec_thread_exists, spec_thread_post, spec_valid_content, wf, StoreView,
};
use crate::post::PostView;

verus! {

/// The store after `k` allocations on one board.
pub open spec fn alloc_n(s: StoreView, name: Seq<char>, k: nat) -> StoreView
    decreases k,
{
    if k == 0 {
        s
    } else {
        spec_alloc(alloc_n(s, name, (k - 1) as nat), name)
    }
}

/// The post number the allocation after `k` earlier ones returns.
pub open spec fn alloc_return(s: StoreView, name: Seq<char>, k: nat) -> int {
    board_counter(alloc_n(s, name, k), name) + 1
}

/// After `k` allocations the store is still well formed, the board still
/// exists, its posts are untouched, and its counter advanced by exactly `k`.
pub proof fn lemma_alloc_n(s: StoreView, name: Seq<char>, k: nat)
    requires
        wf(s),
        spec_board_exists(s, name),
    ensures
        wf(alloc_n(s, name, k)),
        spec_board_exists(alloc_n(s, name, k), name),
        alloc_n(s, name, k).posts == s.posts,
        board_counter(alloc_n(s, name, k), name) == board_counter(s, name) + k,
    decreases k,
{
    if k > 0 {
        lemma_alloc_n(s, name, (k - 1) as nat);
        lemma_alloc_wf(alloc_n(s, name, (k - 1) as nat), name);
    }
}

/// Law: a run of `n` allocations on one board returns pairwise distinct
/// values, namely the `n` consecutive integers that follow the counter the
/// board started from.
pub proof fn lemma_allocations_unique_consecutive(s: StoreView, name: Seq<char>, n: nat)
    requires
        wf(s),
        spec_board_exists(s, name),
    ensures
        forall|k: nat|
            k < n ==> #[trigger] alloc_return(s, name, k) == board_counter(s, name) + k + 1,
        forall|k1: nat, k2: nat|
            k1 < n && k2 < n && k1 != k2 ==> alloc_return(s, name, k1) != alloc_return(
                s,
                name,
                k2,
            ),
{
    assert forall|k: nat| k < n implies #[trigger] alloc_return(s, name, k) == board_counter(
        s,
        name,
    ) + k + 1 by {
        lemma_alloc_n(s, name, k);
    }
}

/// A store in which no post is a reply to thread `n` on `board` has no
/// replies to it.
proof fn lemma_replies_none(s: StoreView, board: Seq<char>, n: int)
    requires
        forall|i: int| 0 <= i < s.posts.len() ==> !is_reply_to(#[trigger] s.posts[i], board, n),
    ensures
        spec_replies(s, board, n) == Seq::<PostView>::empty(),
    decreases s.posts.len(),
{
    broadcast use Seq::lemma_filter_push;

    if s.posts.len() == 0 {
        assert(spec_replies(s, board, n) =~= Seq::<PostView>::empty());
    } else {
        let s0 = StoreView { posts: s.posts.drop_last(), ..s };
        assert(forall|i: int|
            0 <= i < s0.posts.len() ==> !is_reply_to(#[trigger] s0.posts[i], board, n));
        lemma_replies_none(s0, board, n);
        assert(s.posts =~= s0.posts.push(s.posts.last()));
        assert(!is_reply_to(s.posts.last(), board, n));
        assert(spec_replies(s, board, n) == spec_replies(s0, board, n));
    }
}

/// Law: a thread just created on an existing board with acceptable content
/// is immediately visible. Its number is freshly minted, `thread_exists`
/// holds of it, and `get_thread` returns exactly the new root with no
/// replies.
pub proof fn lemma_create_thread_visible(
    s: StoreView,
    board: Seq<char>,
    subject: Seq<char>,
    name: Seq<char>,
    email: Seq<char>,
    content: Seq<char>,
    now: int,
)
    requires
        wf(s),
        spec_board_exists(s, board),
        spec_valid_content(content),
    ensures
        ({
            let (s2, r) = spec_create_thread(s, board, subject, name, email, content, now);
            &&& r matches Ok(n)
            &&& r->Ok_0 == board_counter(s, board) + 1
            &&& spec_thread_exists(s2, board, r->Ok_0)
            &&& spec_get_thread(s2, board, r->Ok_0) == Some(
                (
                    spec_thread_post(board, subject, name, email, content, r->Ok_0, now),
                    Seq::<PostView>::empty(),
                ),
            )
        }),
{
    let n = board_counter(s, board) + 1;
    let s1 = spec_alloc(s, board);
    let pv = spec_thread_post(board, subject, name, email, content, n, now);
    let s2 = spec_create_thread(s, board, subject, name, email, content, now).0;
    lemma_alloc_wf(s, board);
    assert(s.boards[board_idx(s, board)].post_counter >= 0);
    assert(post_valid(s1, pv));
    assert forall|idx: int|
        0 <= idx < s1.posts.len() && (#[trigger] s1.posts[idx]).board
            == pv.board implies s1.posts[idx].post_number < board_counter(s1, pv.board) by {
        assert(s1.posts[idx] == s.posts[idx]);
        assert(post_valid(s, s.posts[idx]));
    }
    lemma_push_post_wf(s1, pv);
    assert(s2 == StoreView { posts: s1.posts.push(pv), ..s1 });
    let last = s2.posts.len() - 1;
    assert(s2.posts[last] == pv);
    assert(is_root_of(s2.posts[last], board, n));
    lemma_root_idx_unique(s2, board, n, last);
    assert forall|i: int| 0 <= i < s2.posts.len() implies !is_reply_to(
        #[trigger] s2.posts[i],
        board,
        n,
    ) by {
        if i < s.posts.len() {
            let p = s.posts[i];
            assert(s2.posts[i] == p);
            assert(post_valid(s, p));
            if is_reply_to(p, board, n) {
                assert(p.parent == n);
                assert(p.post_number <= board_counter(s, p.board));
            }
        }
    }
    lemma_replies_none(s2, board, n);
}

/// Law: a reply just created against an existing thread with acceptable
/// content is immediately visible. `get_thread` of the parent returns the
/// unchanged root and the old replies extended by exactly the new reply,
/// which carries `parent == t` and `is_thread == false`.
pub proof fn lemma_create_post_visible(
    s: StoreView,
    board: Seq<char>,
    t: int,
    name: Seq<char>,
    email: Seq<char>,
    content: Seq<char>,
)
    requires
        wf(s),
        spec_thread_exists(s, board, t),
        spec_valid_content(content),
    ensures
        ({
            let (s2, r) = spec_create_post(s, board, t, name, email, content);
            let reply = spec_reply_post(board, t, name, email, content, r->Ok_0);
            &&& r matches Ok(n)
            &&& r->Ok_0 == board_counter(s, board) + 1
            &&& !reply.is_thread
            &&& reply.parent == t
            &&& spec_get_thread(s2, board, t) == Some(
                (s.posts[root_idx(s, board, t)], spec_replies(s, board, t).push(reply)),
            )
        }),
{
    broadcast use Seq::lemma_filter_push;

    let w = root_idx(s, board, t);
    assert(0 <= w < s.posts.len() && is_root_of(s.posts[w], board, t));
    assert(post_valid(s, s.posts[w]));
    let n = board_counter(s, board) + 1;
    let s1 = spec_alloc(s, board);
    let reply = spec_reply_post(board, t, name, email, content, n);
    let s2 = spec_create_post(s, board, t, name, email, content).0;
    lemma_alloc_wf(s, board);
    lemma_same_posts_lookup(s, s1, board, t);
    assert(s.boards[board_idx(s, board)].post_counter >= 0);
    assert(post_valid(s1, reply));
    assert forall|idx: int|
        0 <= idx < s1.posts.len() && (#[trigger] s1.posts[idx]).board
            == reply.board implies s1.posts[idx].post_number < board_counter(s1, reply.board) by {
        assert(s1.posts[idx] == s.posts[idx]);
        assert(post_valid(s, s.posts[idx]));
    }
    lemma_push_post_wf(s1, reply);
    assert(s2 == StoreView { posts: s1.posts.push(reply), ..s1 });
    assert(is_root_of(s2.posts[w], board, t));
    lemma_root_idx_unique(s2, board, t, w);
    lemma_root_idx_unique(s, board, t, w);
    assert(s2.posts =~= s.posts.push(reply));
    assert(is_reply_to(reply, board, t));
    assert(spec_replies(s2, board, t) == spec_replies(s, board, t).push(reply));
}

} // verus!
