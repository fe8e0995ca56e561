//! Mathematical model of the store: the view of its state, the
//! well-formedness invariant, and the transition functions the executable
//! operations are specified against.

use vstd::prelude::*;

use crate::board::{BoardView, NewBoard, NewBoardView};
use crate::errors::StoreError;
use crate::post::{Post, PostView};

verus! {

/// State of the whole store: the board rows and the post rows, each in
/// insertion order.
#[verifier::ext_equal]
pub struct StoreView {
    pub boards: Seq<BoardView>,
    pub posts: Seq<PostView>,
}

/// Upper bound a board counter may reach: the counter is persisted as a
/// 64-bit signed integer, so allocation must stop at this value.
pub open spec fn counter_limit() -> int {
    i64::MAX as int
}

/// The named board, if present, can still mint a number without overflowing
/// its 64-bit counter.
pub open spec fn counter_headroom(s: StoreView, name: Seq<char>) -> bool {
    spec_board_exists(s, name) ==> board_counter(s, name) < counter_limit()
}

// ---------------------------------------------------------------------------
// Lookups
// ---------------------------------------------------------------------------

/// A board row with this short name exists.
pub open spec fn spec_board_exists(s: StoreView, name: Seq<char>) -> bool {
    exists|i: int| 0 <= i < s.boards.len() && s.boards[i].short_name == name
}

/// Index of the board row with this short name (unique under `boards_wf`).
pub open spec fn board_idx(s: StoreView, name: Seq<char>) -> int {
    choose|i: int| 0 <= i < s.boards.len() && s.boards[i].short_name == name
}

/// Counter of the board with this short name.
pub open spec fn board_counter(s: StoreView, name: Seq<char>) -> int {
    s.boards[board_idx(s, name)].post_counter
}

/// `p` is the thread root numbered `n` on `board`.
pub open spec fn is_root_of(p: PostView, board: Seq<char>, n: int) -> bool {
    p.board == board && p.post_number == n && p.is_thread
}

/// A thread root numbered `n` exists on `board`.
pub open spec fn spec_thread_exists(s: StoreView, board: Seq<char>, n: int) -> bool {
    exists|i: int| 0 <= i < s.posts.len() && is_root_of(s.posts[i], board, n)
}

/// Index of the thread root numbered `n` on `board` (unique under `posts_wf`).
pub open spec fn root_idx(s: StoreView, board: Seq<char>, n: int) -> int {
    choose|i: int| 0 <= i < s.posts.len() && is_root_of(s.posts[i], board, n)
}

/// `p` is a reply to thread `n` on `board`.
pub open spec fn is_reply_to(p: PostView, board: Seq<char>, n: int) -> bool {
    p.board == board && p.parent == n && !p.is_thread
}

/// The replies to thread `n` on `board`, in insertion order, which under
/// `posts_wf` is ascending post-number order.
pub open spec fn spec_replies(s: StoreView, board: Seq<char>, n: int) -> Seq<PostView> {
    s.posts.filter(|p: PostView| is_reply_to(p, board, n))
}

/// `p` is a thread root on `board` that is still active.
pub open spec fn is_active_root(p: PostView, board: Seq<char>) -> bool {
    p.board == board && p.is_thread && p.is_active
}

/// The catalog of `board`: exactly its active thread roots, in insertion
/// order, which under `posts_wf` is ascending post-number order.
pub open spec fn spec_catalog(s: StoreView, board: Seq<char>) -> Seq<PostView> {
    s.posts.filter(|p: PostView| is_active_root(p, board))
}

/// Bump-time order on optional timestamps: a stamped post outranks an
/// unstamped one, and later stamps outrank earlier ones.
pub open spec fn time_ge(a: Option<int>, b: Option<int>) -> bool {
    match (a, b) {
        (Some(x), Some(y)) => x >= y,
        (Some(x), None) => true,
        (None, None) => true,
        (None, Some(y)) => false,
    }
}

/// `a` may stand at or before `b` in a presented catalog: pinned threads
/// first, then the most recently bumped first.
pub open spec fn catalog_le(a: PostView, b: PostView) -> bool {
    if a.pinned != b.pinned {
        a.pinned
    } else {
        time_ge(a.last_modified, b.last_modified)
    }
}

/// The sequence is ordered as a catalog is presented.
pub open spec fn sorted_catalog(ps: Seq<PostView>) -> bool {
    forall|i: int, j: int| 0 <= i <= j < ps.len() ==> catalog_le(ps[i], ps[j])
}

/// The catalog order is total: of any two posts, one may stand before the
/// other.
pub proof fn lemma_catalog_le_total(a: PostView, b: PostView)
    ensures
        catalog_le(a, b) || catalog_le(b, a),
{
}

/// The catalog order is transitive.
pub proof fn lemma_catalog_le_trans(a: PostView, b: PostView, c: PostView)
    requires
        catalog_le(a, b),
        catalog_le(b, c),
    ensures
        catalog_le(a, c),
{
}

/// The thread `n` on `board`: its root and its replies, or nothing when no
/// such root exists.
pub open spec fn spec_get_thread(s: StoreView, board: Seq<char>, n: int) -> Option<
    (PostView, Seq<PostView>),
> {
    if spec_thread_exists(s, board, n) {
        Some((s.posts[root_idx(s, board, n)], spec_replies(s, board, n)))
    } else {
        None
    }
}

// ---------------------------------------------------------------------------
// Views of executable collections
// ---------------------------------------------------------------------------

/// Views of a sequence of borrowed posts.
pub open spec fn views_of_posts(ps: Seq<&Post>) -> Seq<PostView> {
    ps.map_values(|p: &Post| p@)
}

/// Views of a sequence of board descriptions.
pub open spec fn views_of_new_boards(bs: Seq<NewBoard>) -> Seq<NewBoardView> {
    bs.map_values(|b: NewBoard| b@)
}

/// The store restricted to its first `i` posts.
pub open spec fn prefix_store(s: StoreView, i: int) -> StoreView {
    StoreView { posts: s.posts.subrange(0, i), ..s }
}

// ---------------------------------------------------------------------------
// Well-formedness
// ---------------------------------------------------------------------------

/// Board rows are well formed: short names are unique and counters are
/// non-negative.
pub open spec fn boards_wf(s: StoreView) -> bool {
    &&& forall|i: int, j: int|
        0 <= i < j < s.boards.len() ==> (#[trigger] s.boards[i]).short_name != (
        #[trigger] s.boards[j]).short_name
    &&& forall|i: int| 0 <= i < s.boards.len() ==> (#[trigger] s.boards[i]).post_counter >= 0
}

/// A single post row is consistent with the rest of the store: its board
/// exists, its number was minted by that board's counter, a root points to
/// itself, and a reply points to an earlier root of the same board.
pub open spec fn post_valid(s: StoreView, p: PostView) -> bool {
    &&& spec_board_exists(s, p.board)
    &&& 1 <= p.post_number <= board_counter(s, p.board)
    &&& p.is_thread ==> p.parent == p.post_number
    &&& !p.is_thread ==> spec_thread_exists(s, p.board, p.parent) && p.parent < p.post_number
}

/// Post rows are well formed: each row is valid and, within one board, rows
/// stand in strictly ascending post-number order (so keys are unique).
pub open spec fn posts_wf(s: StoreView) -> bool {
    &&& forall|i: int| 0 <= i < s.posts.len() ==> post_valid(s, #[trigger] s.posts[i])
    &&& forall|i: int, j: int|
        0 <= i < j < s.posts.len() && (#[trigger] s.posts[i]).board == (
        #[trigger] s.posts[j]).board ==> s.posts[i].post_number < s.posts[j].post_number
}

/// The store invariant every operation preserves.
pub open spec fn wf(s: StoreView) -> bool {
    boards_wf(s) && posts_wf(s)
}

/// The empty store.
pub open spec fn empty_store() -> StoreView {
    StoreView { boards: Seq::empty(), posts: Seq::empty() }
}

// ---------------------------------------------------------------------------
// Content validation and defaults
// ---------------------------------------------------------------------------

/// The whitespace characters content validation ignores.
pub open spec fn is_space_char(c: char) -> bool {
    c == ' ' || c == '\t' || c == '\n' || c == '\r' || c == '\u{b}' || c == '\u{c}'
}

/// Content is acceptable iff some character of it is not whitespace.
pub open spec fn spec_valid_content(c: Seq<char>) -> bool {
    exists|i: int| 0 <= i < c.len() && !is_space_char(c[i])
}

/// An empty poster name falls back to the placeholder.
pub open spec fn spec_default_name(n: Seq<char>) -> Seq<char> {
    if n.len() == 0 {
        "Anonymous"@
    } else {
        n
    }
}

// ---------------------------------------------------------------------------
// Transitions
// ---------------------------------------------------------------------------

/// Insert one board with counter zero; a duplicate short name is ignored.
pub open spec fn spec_add_board(s: StoreView, b: NewBoardView) -> StoreView {
    if spec_board_exists(s, b.short_name) {
        s
    } else {
        StoreView {
            boards: s.boards.push(
                BoardView {
                    short_name: b.short_name,
                    long_name: b.long_name,
                    description: b.description,
                    post_counter: 0,
                },
            ),
            ..s
        }
    }
}

/// Insert each board in turn, skipping duplicates.
pub open spec fn spec_create_boards(s: StoreView, bs: Seq<NewBoardView>) -> StoreView
    decreases bs.len(),
{
    if bs.len() == 0 {
        s
    } else {
        spec_add_board(spec_create_boards(s, bs.drop_last()), bs.last())
    }
}

/// Advance the named board's counter by one.
pub open spec fn spec_alloc(s: StoreView, name: Seq<char>) -> StoreView {
    let i = board_idx(s, name);
    StoreView {
        boards: s.boards.update(
            i,
            BoardView { post_counter: s.boards[i].post_counter + 1, ..s.boards[i] },
        ),
        ..s
    }
}

/// The root post `create_thread` writes.
pub open spec fn spec_thread_post(
    board: Seq<char>,
    subject: Seq<char>,
    name: Seq<char>,
    email: Seq<char>,
    content: Seq<char>,
    n: int,
    now: int,
) -> PostView {
    PostView {
        post_number: n,
        parent: n,
        board: board,
        subject: Some(subject),
        name: spec_default_name(name),
        email: email,
        content: content,
        is_thread: true,
        pinned: false,
        is_active: true,
        last_modified: Some(now),
    }
}

/// The reply post `create_post` writes.
pub open spec fn spec_reply_post(
    board: Seq<char>,
    parent: int,
    name: Seq<char>,
    email: Seq<char>,
    content: Seq<char>,
    n: int,
) -> PostView {
    PostView {
        post_number: n,
        parent: parent,
        board: board,
        subject: None,
        name: spec_default_name(name),
        email: email,
        content: content,
        is_thread: false,
        pinned: false,
        is_active: false,
        last_modified: None,
    }
}

/// Create a thread root: validate the content, mint a number from the named
/// board, and append the root post.
pub open spec fn spec_create_thread(
    s: StoreView,
    board: Seq<char>,
    subject: Seq<char>,
    name: Seq<char>,
    email: Seq<char>,
    content: Seq<char>,
    now: int,
) -> (StoreView, Result<int, StoreError>) {
    if !spec_valid_content(content) {
        (s, Err(StoreError::ValidationError))
    } else if !spec_board_exists(s, board) {
        (s, Err(StoreError::NotFound))
    } else {
        let n = board_counter(s, board) + 1;
        let s1 = spec_alloc(s, board);
        (
            StoreView {
                posts: s1.posts.push(spec_thread_post(board, subject, name, email, content, n, now)),
                ..s1
            },
            Ok(n),
        )
    }
}

/// Create a reply: validate the content, require the parent thread to exist,
/// mint a number from the board, and append the reply post.
pub open spec fn spec_create_post(
    s: StoreView,
    board: Seq<char>,
    parent: int,
    name: Seq<char>,
    email: Seq<char>,
    content: Seq<char>,
) -> (StoreView, Result<int, StoreError>) {
    if !spec_valid_content(content) {
        (s, Err(StoreError::ValidationError))
    } else if !spec_thread_exists(s, board, parent) {
        (s, Err(StoreError::NotFound))
    } else {
        let n = board_counter(s, board) + 1;
        let s1 = spec_alloc(s, board);
        (
            StoreView {
                posts: s1.posts.push(spec_reply_post(board, parent, name, email, content, n)),
                ..s1
            },
            Ok(n),
        )
    }
}

/// Relates an executable result to its modelled counterpart.
pub open spec fn result_matches(r: Result<i64, StoreError>, m: Result<int, StoreError>) -> bool {
    match (r, m) {
        (Ok(a), Ok(b)) => a as int == b,
        (Err(a), Err(b)) => a == b,
        _ => false,
    }
}

// ---------------------------------------------------------------------------
// Uniqueness of lookups
// ---------------------------------------------------------------------------

/// Under `boards_wf`, any index holding the name is the index `board_idx`
/// picks.
pub proof fn lemma_board_idx_unique(s: StoreView, name: Seq<char>, i: int)
    requires
        boards_wf(s),
        0 <= i < s.boards.len(),
        s.boards[i].short_name == name,
    ensures
        spec_board_exists(s, name),
        board_idx(s, name) == i,
{
    assert(spec_board_exists(s, name));
    let j = board_idx(s, name);
    assert(0 <= j < s.boards.len() && s.boards[j].short_name == name);
    if i < j {
        assert(s.boards[i].short_name != s.boards[j].short_name);
    } else if j < i {
        assert(s.boards[j].short_name != s.boards[i].short_name);
    }
}

/// Under `posts_wf`, any index holding the root of thread `n` on `board` is
/// the index `root_idx` picks.
pub proof fn lemma_root_idx_unique(s: StoreView, board: Seq<char>, n: int, i: int)
    requires
        posts_wf(s),
        0 <= i < s.posts.len(),
        is_root_of(s.posts[i], board, n),
    ensures
        spec_thread_exists(s, board, n),
        root_idx(s, board, n) == i,
{
    assert(spec_thread_exists(s, board, n));
    let j = root_idx(s, board, n);
    assert(0 <= j < s.posts.len() && is_root_of(s.posts[j], board, n));
    if i < j {
        assert(s.posts[i].post_number < s.posts[j].post_number);
    } else if j < i {
        assert(s.posts[j].post_number < s.posts[i].post_number);
    }
}

// ---------------------------------------------------------------------------
// Lookup stability
// ---------------------------------------------------------------------------

/// Board lookups depend on the board rows alone.
pub proof fn lemma_same_boards_lookup(s1: StoreView, s2: StoreView, m: Seq<char>)
    requires
        s1.boards == s2.boards,
        boards_wf(s1),
    ensures
        spec_board_exists(s1, m) == spec_board_exists(s2, m),
        spec_board_exists(s1, m) ==> board_idx(s2, m) == board_idx(s1, m) && board_counter(s2, m)
            == board_counter(s1, m),
{
    if spec_board_exists(s1, m) {
        let i = board_idx(s1, m);
        assert(0 <= i < s1.boards.len() && s1.boards[i].short_name == m);
        assert(s2.boards[i].short_name == m);
        assert(spec_board_exists(s2, m));
        let j = board_idx(s2, m);
        assert(0 <= j < s1.boards.len() && s1.boards[j].short_name == m);
        lemma_board_idx_unique(s1, m, j);
    } else if spec_board_exists(s2, m) {
        let i = board_idx(s2, m);
        assert(0 <= i < s2.boards.len() && s2.boards[i].short_name == m);
        assert(s1.boards[i].short_name == m);
        assert(spec_board_exists(s1, m));
    }
}

/// Thread lookups depend on the post rows alone.
pub proof fn lemma_same_posts_lookup(s1: StoreView, s2: StoreView, board: Seq<char>, n: int)
    requires
        s1.posts == s2.posts,
    ensures
        spec_thread_exists(s1, board, n) == spec_thread_exists(s2, board, n),
        spec_replies(s1, board, n) == spec_replies(s2, board, n),
        spec_catalog(s1, board) == spec_catalog(s2, board),
        posts_wf(s1) && spec_thread_exists(s1, board, n) ==> root_idx(s2, board, n) == root_idx(
            s1,
            board,
            n,
        ),
{
    if spec_thread_exists(s1, board, n) {
        let i = root_idx(s1, board, n);
        assert(0 <= i < s1.posts.len() && is_root_of(s1.posts[i], board, n));
        assert(is_root_of(s2.posts[i], board, n));
        assert(spec_thread_exists(s2, board, n));
        if posts_wf(s1) {
            let j = root_idx(s2, board, n);
            assert(0 <= j < s1.posts.len() && is_root_of(s1.posts[j], board, n));
            lemma_root_idx_unique(s1, board, n, j);
            lemma_root_idx_unique(s1, board, n, i);
        }
    } else if spec_thread_exists(s2, board, n) {
        let i = root_idx(s2, board, n);
        assert(is_root_of(s1.posts[i], board, n));
        assert(spec_thread_exists(s1, board, n));
    }
}

// ---------------------------------------------------------------------------
// Transition preservation
// ---------------------------------------------------------------------------

/// Advancing a counter keeps the store well formed; every lookup but the
/// advanced counter is unchanged.
pub proof fn lemma_alloc_wf(s: StoreView, name: Seq<char>)
    requires
        wf(s),
        spec_board_exists(s, name),
    ensures
        ({
            let s2 = spec_alloc(s, name);
            &&& wf(s2)
            &&& s2.posts == s.posts
            &&& s2.boards.len() == s.boards.len()
            &&& forall|m: Seq<char>| #[trigger]
                spec_board_exists(s2, m) == spec_board_exists(s, m)
            &&& board_counter(s2, name) == board_counter(s, name) + 1
            &&& forall|m: Seq<char>|
                spec_board_exists(s, m) && m != name ==> #[trigger] board_counter(s2, m)
                    == board_counter(s, m)
        }),
{
    let i = board_idx(s, name);
    assert(0 <= i < s.boards.len() && s.boards[i].short_name == name);
    let s2 = spec_alloc(s, name);
    assert(forall|k: int|
        0 <= k < s.boards.len() ==> (#[trigger] s2.boards[k]).short_name
            == s.boards[k].short_name);
    assert(boards_wf(s2));
    assert forall|m: Seq<char>| #[trigger]
        spec_board_exists(s2, m) == spec_board_exists(s, m) by {
        if spec_board_exists(s, m) {
            let k = board_idx(s, m);
            assert(s2.boards[k].short_name == m);
            assert(spec_board_exists(s2, m));
        } else if spec_board_exists(s2, m) {
            let k = board_idx(s2, m);
            assert(s.boards[k].short_name == m);
            assert(spec_board_exists(s, m));
        }
    }
    lemma_board_idx_unique(s2, name, i);
    assert(board_counter(s2, name) == board_counter(s, name) + 1);
    assert forall|m: Seq<char>| spec_board_exists(s, m) && m != name implies #[trigger]
        board_counter(s2, m) == board_counter(s, m) by {
        let k = board_idx(s, m);
        assert(0 <= k < s.boards.len() && s.boards[k].short_name == m);
        lemma_board_idx_unique(s2, m, k);
        assert(k != i);
    }
    assert forall|k: int| 0 <= k < s2.posts.len() implies post_valid(
        s2,
        #[trigger] s2.posts[k],
    ) by {
        let p = s.posts[k];
        assert(post_valid(s, p));
        lemma_same_posts_lookup(s, s2, p.board, p.parent);
        if p.board == name {
            assert(board_counter(s2, p.board) == board_counter(s, p.board) + 1);
        } else {
            assert(board_counter(s2, p.board) == board_counter(s, p.board));
        }
    }
    assert(posts_wf(s2));
}

/// Adding a board keeps the store well formed; boards already present keep
/// their counters, and the added name exists afterwards.
pub proof fn lemma_add_board_wf(s: StoreView, b: NewBoardView)
    requires
        wf(s),
    ensures
        ({
            let s2 = spec_add_board(s, b);
            &&& wf(s2)
            &&& s2.posts == s.posts
            &&& spec_board_exists(s2, b.short_name)
            &&& forall|m: Seq<char>|
                spec_board_exists(s, m) ==> #[trigger] spec_board_exists(s2, m) && board_counter(
                    s2,
                    m,
                ) == board_counter(s, m)
        }),
{
    let s2 = spec_add_board(s, b);
    if spec_board_exists(s, b.short_name) {
        assert(s2 == s);
    } else {
        let len = s.boards.len() as int;
        assert(s2.boards[len].short_name == b.short_name);
        assert(spec_board_exists(s2, b.short_name));
        assert forall|i: int, j: int| 0 <= i < j < s2.boards.len() implies (
        #[trigger] s2.boards[i]).short_name != (#[trigger] s2.boards[j]).short_name by {
            if j == len {
                if s.boards[i].short_name == b.short_name {
                    assert(spec_board_exists(s, b.short_name));
                }
            }
        }
        assert(boards_wf(s2));
        assert forall|m: Seq<char>| spec_board_exists(s, m) implies #[trigger] spec_board_exists(
            s2,
            m,
        ) && board_counter(s2, m) == board_counter(s, m) by {
            let k = board_idx(s, m);
            assert(0 <= k < s.boards.len() && s.boards[k].short_name == m);
            assert(s2.boards[k].short_name == m);
            lemma_board_idx_unique(s2, m, k);
        }
        assert forall|k: int| 0 <= k < s2.posts.len() implies post_valid(
            s2,
            #[trigger] s2.posts[k],
        ) by {
            let q = s.posts[k];
            assert(post_valid(s, q));
            lemma_same_posts_lookup(s, s2, q.board, q.parent);
        }
        assert(posts_wf(s2));
    }
}

/// Appending a freshly numbered post keeps the store well formed. The new
/// post must be valid against the already-bumped store and carry its new
/// counter value as its number.
pub proof fn lemma_push_post_wf(s: StoreView, p: PostView)
    requires
        wf(s),
        post_valid(s, p),
        p.post_number == board_counter(s, p.board),
        forall|i: int|
            0 <= i < s.posts.len() && (#[trigger] s.posts[i]).board == p.board ==> s.posts[i].post_number
                < board_counter(s, p.board),
    ensures
        wf(StoreView { posts: s.posts.push(p), ..s }),
{
    let s2 = StoreView { posts: s.posts.push(p), ..s };
    assert(boards_wf(s2));
    assert forall|k: int| 0 <= k < s2.posts.len() implies post_valid(
        s2,
        #[trigger] s2.posts[k],
    ) by {
        lemma_same_boards_lookup(s, s2, s2.posts[k].board);
        let q = if k < s.posts.len() {
            s.posts[k]
        } else {
            p
        };
        assert(s2.posts[k] == q);
        assert(post_valid(s, q));
        if !q.is_thread {
            let w = choose|w: int|
                0 <= w < s.posts.len() && is_root_of(s.posts[w], q.board, q.parent);
            assert(is_root_of(s2.posts[w], q.board, q.parent));
            assert(spec_thread_exists(s2, q.board, q.parent));
        }
    }
    assert forall|i: int, j: int|
        0 <= i < j < s2.posts.len() && (#[trigger] s2.posts[i]).board == (
        #[trigger] s2.posts[j]).board implies s2.posts[i].post_number
        < s2.posts[j].post_number by {
        if j == s.posts.len() {
            assert(s2.posts[j] == p);
            assert(s2.posts[i] == s.posts[i]);
        }
    }
    assert(posts_wf(s2));
}

} // verus!
