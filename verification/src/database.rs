//! The executable store: board rows and post rows, with the sequence
//! allocator, the post store, and the query layer. Every operation is
//! specified against the transition functions of `crate::model` and
//! preserves the store invariant `wf`.

use vstd::prelude::*;
use vstd::string::*;

use crate::board::{Board, BoardView, NewBoard};
use crate::errors::StoreError;
use crate::model::{
    board_counter, board_idx, catalog_le, counter_headroom, empty_store, is_active_root,
    is_reply_to, is_root_of, is_space_char, lemma_add_board_wf, lemma_alloc_wf,
    lemma_board_idx_unique, lemma_catalog_le_total, lemma_catalog_le_trans, lemma_push_post_wf,
    lemma_root_idx_unique, lemma_same_posts_lookup, post_valid, prefix_store, result_matches,
    root_idx, sorted_catalog, spec_add_board, spec_alloc, spec_board_exists, spec_catalog,
    spec_create_boards, spec_create_post, spec_create_thread, spec_default_name, spec_replies,
    spec_reply_post, spec_thread_exists, spec_thread_post, spec_valid_content,
    views_of_new_boards, views_of_posts, wf, StoreView,
};
use crate::post::{Post, PostView};

verus! {

/// The store state: all board rows and all post rows, posts in insertion
/// order.
pub struct Store {
    pub boards: Vec<Board>,
    pub posts: Vec<Post>,
}

impl View for Store {
    type V = StoreView;

    open spec fn view(&self) -> StoreView {
        StoreView {
            boards: self.boards@.map_values(|b: Board| b@),
            posts: self.posts@.map_values(|p: Post| p@),
        }
    }
}

impl Store {
    /// A store with no boards and no posts, as `ensure_schema` leaves a
    /// fresh installation.
    pub fn new() -> (s: Store)
        ensures
            s@ == empty_store(),
            wf(s@),
    {
        let s = Store { boards: Vec::new(), posts: Vec::new() };
        proof {
            assert(s@.boards =~= empty_store().boards);
            assert(s@.posts =~= empty_store().posts);
            assert(s@ =~= empty_store());
        }
        s
    }
}

/// Whether this character counts as whitespace for content validation.
fn is_space(c: char) -> (r: bool)
    ensures
        r == is_space_char(c),
{
    c == ' ' || c == '\t' || c == '\n' || c == '\r' || c == '\u{b}' || c == '\u{c}'
}

/// Whether submitted content carries at least one non-whitespace character.
pub fn content_is_valid(content: &str) -> (r: bool)
    ensures
        r == spec_valid_content(content@),
{
    let n = content.unicode_len();
    let mut i: usize = 0;
    while i < n
        invariant
            n == content@.len(),
            i <= n,
            forall|j: int| 0 <= j < i ==> is_space_char(content@[j]),
        decreases n - i,
    {
        let c = content.get_char(i);
        if !is_space(c) {
            assert(!is_space_char(content@[i as int]));
            return true;
        }
        i = i + 1;
    }
    false
}

/// The poster name actually stored: the placeholder when the field was left
/// empty.
pub fn effective_name(name: &str) -> (r: String)
    ensures
        r@ == spec_default_name(name@),
{
    if name.unicode_len() == 0 {
        "Anonymous".to_owned()
    } else {
        name.to_owned()
    }
}

/// Index of the board row with this short name, if any.
fn find_board(s: &Store, board_name: &str) -> (r: Option<usize>)
    ensures
        match r {
            Some(i) => i < s.boards.len() && s@.boards[i as int].short_name == board_name@,
            None => !spec_board_exists(s@, board_name@),
        },
{
    let key: String = board_name.to_owned();
    let n = s.boards.len();
    let mut i: usize = 0;
    while i < n
        invariant
            n == s.boards.len(),
            i <= n,
            key@ == board_name@,
            forall|j: int| 0 <= j < i ==> (#[trigger] s@.boards[j]).short_name != board_name@,
        decreases n - i,
    {
        if s.boards[i].short_name == key {
            return Some(i);
        }
        i = i + 1;
    }
    None
}

/// True iff a board row with this short name exists.
pub fn board_exists(s: &Store, board_name: &str) -> (r: Result<bool, StoreError>)
    ensures
        r matches Ok(b) && b == spec_board_exists(s@, board_name@),
{
    match find_board(s, board_name) {
        Some(i) => {
            assert(spec_board_exists(s@, board_name@));
            Ok(true)
        },
        None => Ok(false),
    }
}

/// Index of the thread root numbered `thread_number` on the board, if any.
fn find_root(s: &Store, board_name: &str, thread_number: i64) -> (r: Option<usize>)
    ensures
        match r {
            Some(i) => i < s.posts.len() && is_root_of(
                s@.posts[i as int],
                board_name@,
                thread_number as int,
            ),
            None => !spec_thread_exists(s@, board_name@, thread_number as int),
        },
{
    let key: String = board_name.to_owned();
    let n = s.posts.len();
    let mut i: usize = 0;
    while i < n
        invariant
            n == s.posts.len(),
            i <= n,
            key@ == board_name@,
            forall|j: int|
                0 <= j < i ==> !is_root_of(
                    #[trigger] s@.posts[j],
                    board_name@,
                    thread_number as int,
                ),
        decreases n - i,
    {
        let p = &s.posts[i];
        if p.is_thread && p.post_number == thread_number && p.board == key {
            assert(is_root_of(s@.posts[i as int], board_name@, thread_number as int));
            return Some(i);
        }
        i = i + 1;
    }
    None
}

/// True iff a thread root numbered `thread_number` exists on the board.
pub fn thread_exists(s: &Store, board_name: &str, thread_number: i64) -> (r: Result<
    bool,
    StoreError,
>)
    ensures
        r matches Ok(b) && b == spec_thread_exists(s@, board_name@, thread_number as int),
{
    match find_root(s, board_name, thread_number) {
        Some(i) => {
            assert(spec_thread_exists(s@, board_name@, thread_number as int));
            Ok(true)
        },
        None => Ok(false),
    }
}

/// Insert the given boards, each starting with counter zero; a board whose
/// short name is already taken is skipped.
pub fn create_boards(s: &mut Store, boards: &[NewBoard]) -> (r: Result<(), StoreError>)
    requires
        wf(old(s)@),
    ensures
        wf(final(s)@),
        r is Ok,
        final(s)@ == spec_create_boards(old(s)@, views_of_new_boards(boards@)),
{
    let n = boards.len();
    let mut i: usize = 0;
    while i < n
        invariant
            wf(s@),
            n == boards@.len(),
            i <= n,
            s@ == spec_create_boards(old(s)@, views_of_new_boards(boards@.subrange(0, i as int))),
        decreases n - i,
    {
        let ghost pre = s@;
        let b = &boards[i];
        match find_board(s, b.short_name.as_str()) {
            Some(_) => {
                proof {
                    assert(spec_board_exists(pre, b@.short_name));
                    assert(spec_add_board(pre, b@) == pre);
                }
            },
            None => {
                let row = Board {
                    short_name: b.short_name.clone(),
                    long_name: b.long_name.clone(),
                    description: b.description.clone(),
                    post_counter: 0,
                };
                let ghost rv = row@;
                s.boards.push(row);
                proof {
                    lemma_add_board_wf(pre, b@);
                    assert(s@.boards =~= pre.boards.push(rv));
                    assert(s@.posts =~= pre.posts);
                    assert(s@ =~= spec_add_board(pre, b@));
                }
            },
        }
        proof {
            let vs0 = views_of_new_boards(boards@.subrange(0, i as int));
            let vs1 = views_of_new_boards(boards@.subrange(0, i as int + 1));
            assert(vs1.drop_last() =~= vs0);
            assert(vs1.last() == b@);
            assert(spec_create_boards(old(s)@, vs1) == spec_add_board(
                spec_create_boards(old(s)@, vs0),
                b@,
            ));
        }
        i = i + 1;
    }
    proof {
        assert(boards@.subrange(0, n as int) =~= boards@);
    }
    Ok(())
}

/// Mint the next post number of the named board: its counter advances by
/// exactly one and the new value is returned. Fails with `NotFound` when the
/// board is absent, and then leaves the store unchanged. This is the only
/// place post numbers are minted.
pub fn next_post_number(s: &mut Store, board_name: &str) -> (r: Result<i64, StoreError>)
    requires
        wf(old(s)@),
        counter_headroom(old(s)@, board_name@),
    ensures
        wf(final(s)@),
        spec_board_exists(old(s)@, board_name@) ==> (r matches Ok(n) && n as int == board_counter(
            old(s)@,
            board_name@,
        ) + 1 && final(s)@ == spec_alloc(old(s)@, board_name@)),
        !spec_board_exists(old(s)@, board_name@) ==> (r matches Err(e) && e == StoreError::NotFound
            && final(s)@ == old(s)@),
{
    match find_board(s, board_name) {
        None => Err(StoreError::NotFound),
        Some(i) => {
            proof {
                lemma_board_idx_unique(s@, board_name@, i as int);
                assert(board_counter(s@, board_name@) == s@.boards[i as int].post_counter);
            }
            let mut row = s.boards.remove(i);
            let c = row.post_counter;
            row.post_counter = c + 1;
            let ghost rv = row@;
            s.boards.insert(i, row);
            proof {
                assert(s@.boards =~= old(s)@.boards.update(i as int, rv));
                assert(rv =~= BoardView {
                    post_counter: old(s)@.boards[i as int].post_counter + 1,
                    ..old(s)@.boards[i as int]
                });
                assert(s@ =~= spec_alloc(old(s)@, board_name@));
                lemma_alloc_wf(old(s)@, board_name@);
            }
            Ok(c + 1)
        },
    }
}

/// Create a thread root on the named board with an explicit creation time:
/// validate the content, mint a number, and append the root post. Returns
/// the minted number; fails with `ValidationError` on empty or
/// all-whitespace content and with `NotFound` on an absent board, leaving
/// the store unchanged in both cases.
pub fn create_thread_at(
    s: &mut Store,
    board_name: &str,
    subject: &str,
    name: &str,
    email: &str,
    content: &str,
    now: i64,
) -> (r: Result<i64, StoreError>)
    requires
        wf(old(s)@),
        counter_headroom(old(s)@, board_name@),
    ensures
        wf(final(s)@),
        final(s)@ == spec_create_thread(
            old(s)@,
            board_name@,
            subject@,
            name@,
            email@,
            content@,
            now as int,
        ).0,
        result_matches(
            r,
            spec_create_thread(
                old(s)@,
                board_name@,
                subject@,
                name@,
                email@,
                content@,
                now as int,
            ).1,
        ),
{
    if !content_is_valid(content) {
        return Err(StoreError::ValidationError);
    }
    let num = match next_post_number(s, board_name) {
        Err(e) => {
            return Err(e);
        },
        Ok(n) => n,
    };
    let ghost mid = s@;
    let row = Post {
        post_number: num,
        parent: num,
        board: board_name.to_owned(),
        subject: Some(subject.to_owned()),
        name: effective_name(name),
        email: email.to_owned(),
        content: content.to_owned(),
        is_thread: true,
        pinned: false,
        is_active: true,
        last_modified: Some(now),
    };
    let ghost pv = row@;
    proof {
        lemma_alloc_wf(old(s)@, board_name@);
        assert(pv =~= spec_thread_post(
            board_name@,
            subject@,
            name@,
            email@,
            content@,
            num as int,
            now as int,
        ));
        assert(old(s)@.boards[board_idx(old(s)@, board_name@)].post_counter >= 0);
        assert(post_valid(mid, pv));
        assert forall|idx: int|
            0 <= idx < mid.posts.len() && (#[trigger] mid.posts[idx]).board
                == pv.board implies mid.posts[idx].post_number < board_counter(
            mid,
            pv.board,
        ) by {
            assert(mid.posts[idx] == old(s)@.posts[idx]);
            assert(post_valid(old(s)@, old(s)@.posts[idx]));
        }
        lemma_push_post_wf(mid, pv);
    }
    s.posts.push(row);
    proof {
        assert(s@.posts =~= mid.posts.push(pv));
        assert(s@.boards =~= mid.boards);
        assert(s@ =~= StoreView { posts: mid.posts.push(pv), ..mid });
    }
    Ok(num)
}

/// Create a thread root stamped with the current wall-clock time. The store
/// moves exactly as `create_thread_at` moves it for some timestamp.
pub fn create_thread(
    s: &mut Store,
    board_name: &str,
    subject: &str,
    name: &str,
    email: &str,
    content: &str,
) -> (r: Result<i64, StoreError>)
    requires
        wf(old(s)@),
        counter_headroom(old(s)@, board_name@),
    ensures
        wf(final(s)@),
        exists|t: int|
            {
                let m = #[trigger] spec_create_thread(
                    old(s)@,
                    board_name@,
                    subject@,
                    name@,
                    email@,
                    content@,
                    t,
                );
                final(s)@ == m.0 && result_matches(r, m.1)
            },
        !spec_valid_content(content@) ==> (r matches Err(e) && e == StoreError::ValidationError
            && final(s)@ == old(s)@),
        spec_valid_content(content@) && !spec_board_exists(old(s)@, board_name@) ==> (r matches Err(
            e,
        ) && e == StoreError::NotFound && final(s)@ == old(s)@),
        spec_valid_content(content@) && spec_board_exists(old(s)@, board_name@) ==> (r matches Ok(n)
            && n as int == board_counter(old(s)@, board_name@) + 1),
{
    let now = crate::clock::current_time();
    let r = create_thread_at(s, board_name, subject, name, email, content, now);
    proof {
        let m = spec_create_thread(
            old(s)@,
            board_name@,
            subject@,
            name@,
            email@,
            content@,
            now as int,
        );
        assert(s@ == m.0 && result_matches(r, m.1));
    }
    r
}

/// Create a reply to thread `parent` on the named board: validate the
/// content, require the thread root to exist, mint a number, and append the
/// reply. Returns the minted number; fails with `ValidationError` on empty
/// or all-whitespace content and with `NotFound` when no such thread root
/// exists (in particular when the board is absent), leaving the store
/// unchanged in both cases.
pub fn create_post(
    s: &mut Store,
    board_name: &str,
    parent: i64,
    name: &str,
    email: &str,
    content: &str,
) -> (r: Result<i64, StoreError>)
    requires
        wf(old(s)@),
        counter_headroom(old(s)@, board_name@),
    ensures
        wf(final(s)@),
        final(s)@ == spec_create_post(
            old(s)@,
            board_name@,
            parent as int,
            name@,
            email@,
            content@,
        ).0,
        result_matches(
            r,
            spec_create_post(old(s)@, board_name@, parent as int, name@, email@, content@).1,
        ),
{
    if !content_is_valid(content) {
        return Err(StoreError::ValidationError);
    }
    let texists = match thread_exists(s, board_name, parent) {
        Ok(b) => b,
        Err(e) => {
            proof {
                assert(false);
            }
            return Err(e);
        },
    };
    if !texists {
        return Err(StoreError::NotFound);
    }
    proof {
        let w = root_idx(s@, board_name@, parent as int);
        assert(0 <= w < s@.posts.len() && is_root_of(s@.posts[w], board_name@, parent as int));
        assert(post_valid(s@, s@.posts[w]));
        assert(spec_board_exists(s@, board_name@));
        assert(s@.posts[w].post_number <= board_counter(s@, board_name@));
    }
    let num = match next_post_number(s, board_name) {
        Ok(n) => n,
        Err(e) => {
            proof {
                assert(false);
            }
            return Err(e);
        },
    };
    let ghost mid = s@;
    let row = Post {
        post_number: num,
        parent: parent,
        board: board_name.to_owned(),
        subject: None,
        name: effective_name(name),
        email: email.to_owned(),
        content: content.to_owned(),
        is_thread: false,
        pinned: false,
        is_active: false,
        last_modified: None,
    };
    let ghost pv = row@;
    proof {
        lemma_alloc_wf(old(s)@, board_name@);
        assert(pv =~= spec_reply_post(
            board_name@,
            parent as int,
            name@,
            email@,
            content@,
            num as int,
        ));
        lemma_same_posts_lookup(old(s)@, mid, board_name@, parent as int);
        assert(spec_thread_exists(mid, board_name@, parent as int));
        assert(old(s)@.boards[board_idx(old(s)@, board_name@)].post_counter >= 0);
        assert(post_valid(mid, pv));
        assert forall|idx: int|
            0 <= idx < mid.posts.len() && (#[trigger] mid.posts[idx]).board
                == pv.board implies mid.posts[idx].post_number < board_counter(
            mid,
            pv.board,
        ) by {
            assert(mid.posts[idx] == old(s)@.posts[idx]);
            assert(post_valid(old(s)@, old(s)@.posts[idx]));
        }
        lemma_push_post_wf(mid, pv);
    }
    s.posts.push(row);
    proof {
        assert(s@.posts =~= mid.posts.push(pv));
        assert(s@.boards =~= mid.boards);
        assert(s@ =~= StoreView { posts: mid.posts.push(pv), ..mid });
    }
    Ok(num)
}

/// The board row with this short name, if any.
pub fn get_board<'a>(s: &'a Store, board_name: &str) -> (r: Option<&'a Board>)
    requires
        wf(s@),
    ensures
        match r {
            Some(b) => spec_board_exists(s@, board_name@) && b@ == s@.boards[board_idx(
                s@,
                board_name@,
            )],
            None => !spec_board_exists(s@, board_name@),
        },
{
    match find_board(s, board_name) {
        Some(i) => {
            proof {
                lemma_board_idx_unique(s@, board_name@, i as int);
            }
            Some(&s.boards[i])
        },
        None => None,
    }
}

/// Whether `a` may stand at or before `b` in a presented catalog.
fn comes_at_or_before(a: &Post, b: &Post) -> (r: bool)
    ensures
        r == catalog_le(a@, b@),
{
    if a.pinned != b.pinned {
        a.pinned
    } else {
        match (a.last_modified, b.last_modified) {
            (Some(x), Some(y)) => x >= y,
            (Some(x), None) => true,
            (None, None) => true,
            (None, Some(y)) => false,
        }
    }
}

/// Insert one post into a catalog page kept in presentation order.
fn catalog_insert<'a>(out: &mut Vec<&'a Post>, p: &'a Post)
    requires
        sorted_catalog(views_of_posts(old(out)@)),
    ensures
        sorted_catalog(views_of_posts(final(out)@)),
        views_of_posts(final(out)@).to_multiset() == views_of_posts(old(out)@).to_multiset().insert(
            p@,
        ),
{
    let mut idx: usize = 0;
    while idx < out.len() && comes_at_or_before(out[idx], p)
        invariant
            idx <= out@.len(),
            forall|j: int| 0 <= j < idx ==> catalog_le(views_of_posts(out@)[j], p@),
        decreases out@.len() - idx,
    {
        idx = idx + 1;
    }
    let ghost ov = views_of_posts(old(out)@);
    let ghost pos = idx as int;
    proof {
        if pos < ov.len() {
            lemma_catalog_le_total(ov[pos], p@);
        }
    }
    out.insert(idx, p);
    proof {
        broadcast use vstd::multiset::group_multiset_axioms;

        let nv = views_of_posts(out@);
        old(out)@.insert_ensures(pos, p);
        ov.insert_ensures(pos, p@);
        assert(nv =~= ov.insert(pos, p@));
        assert(nv[pos] == p@);
        nv.to_multiset_ensures();
        ov.to_multiset_ensures();
        nv.remove_ensures(pos);
        assert(nv.remove(pos) =~= ov);
        assert(nv.remove(pos).to_multiset() =~= nv.to_multiset().remove(p@));
        assert(nv.contains(p@));
        assert(nv.to_multiset().count(p@) > 0);
        assert(nv.to_multiset() =~= ov.to_multiset().insert(p@));
        assert forall|i: int, j: int| 0 <= i <= j < nv.len() implies catalog_le(
            nv[i],
            nv[j],
        ) by {
            let a = if i < pos {
                ov[i]
            } else if i == pos {
                p@
            } else {
                ov[i - 1]
            };
            let b = if j < pos {
                ov[j]
            } else if j == pos {
                p@
            } else {
                ov[j - 1]
            };
            assert(nv[i] == a && nv[j] == b);
            if i == j {
                lemma_catalog_le_total(a, a);
            } else if j < pos || (i < pos && j == pos) {
                // both drawn from the sorted prefix, or an element known to
                // come at or before the new post
                assert(catalog_le(a, b));
            } else if i == pos && j > pos {
                // the new post against a shifted element: it lost to the
                // element at the insertion point, which the old order bounds
                assert(catalog_le(p@, ov[pos]));
                lemma_catalog_le_trans(p@, ov[pos], ov[j - 1]);
            } else if i < pos && j > pos {
                assert(catalog_le(a, b));
            } else {
                assert(pos < i <= j);
                assert(catalog_le(a, b));
            }
        }
    }
}

/// The catalog of the named board: exactly its active thread roots, in
/// presentation order (pinned threads first, then the most recently bumped
/// first).
pub fn get_catalog<'a>(s: &'a Store, board_name: &str) -> (r: Vec<&'a Post>)
    ensures
        views_of_posts(r@).to_multiset() == spec_catalog(s@, board_name@).to_multiset(),
        sorted_catalog(views_of_posts(r@)),
{
    let key: String = board_name.to_owned();
    let n = s.posts.len();
    let mut out: Vec<&Post> = Vec::new();
    let mut i: usize = 0;
    proof {
        assert(prefix_store(s@, 0).posts =~= Seq::<PostView>::empty());
        assert(views_of_posts(out@) =~= spec_catalog(prefix_store(s@, 0), board_name@));
    }
    while i < n
        invariant
            n == s.posts.len(),
            i <= n,
            key@ == board_name@,
            sorted_catalog(views_of_posts(out@)),
            views_of_posts(out@).to_multiset() == spec_catalog(
                prefix_store(s@, i as int),
                board_name@,
            ).to_multiset(),
        decreases n - i,
    {
        let ghost pre = prefix_store(s@, i as int);
        let ghost cur = prefix_store(s@, i as int + 1);
        let ghost pv = s@.posts[i as int];
        let p = &s.posts[i];
        if p.is_thread && p.is_active && p.board == key {
            proof {
                assert(is_active_root(pv, board_name@));
            }
            catalog_insert(&mut out, p);
        } else {
            proof {
                assert(!is_active_root(pv, board_name@));
            }
        }
        proof {
            broadcast use Seq::lemma_filter_push;

            spec_catalog(pre, board_name@).to_multiset_ensures();
            assert(cur.posts =~= pre.posts.push(pv));
            assert(spec_catalog(cur, board_name@) == if is_active_root(pv, board_name@) {
                spec_catalog(pre, board_name@).push(pv)
            } else {
                spec_catalog(pre, board_name@)
            });
        }
        i = i + 1;
    }
    proof {
        assert(prefix_store(s@, n as int).posts =~= s@.posts);
        assert(prefix_store(s@, n as int) =~= s@);
    }
    out
}

/// The thread numbered `thread_number` on the named board: its root post and
/// its replies in ascending post-number order, or nothing when no such
/// thread root exists.
pub fn get_thread<'a>(s: &'a Store, board_name: &str, thread_number: i64) -> (r: Option<
    (&'a Post, Vec<&'a Post>),
>)
    requires
        wf(s@),
    ensures
        match r {
            Some(t) => {
                &&& spec_thread_exists(s@, board_name@, thread_number as int)
                &&& t.0@ == s@.posts[root_idx(s@, board_name@, thread_number as int)]
                &&& views_of_posts(t.1@) == spec_replies(s@, board_name@, thread_number as int)
            },
            None => !spec_thread_exists(s@, board_name@, thread_number as int),
        },
{
    let root_i = match find_root(s, board_name, thread_number) {
        None => {
            return None;
        },
        Some(i) => i,
    };
    proof {
        lemma_root_idx_unique(s@, board_name@, thread_number as int, root_i as int);
    }
    let key: String = board_name.to_owned();
    let n = s.posts.len();
    let mut replies: Vec<&Post> = Vec::new();
    let mut i: usize = 0;
    proof {
        assert(prefix_store(s@, 0).posts =~= Seq::<PostView>::empty());
        assert(views_of_posts(replies@) =~= spec_replies(
            prefix_store(s@, 0),
            board_name@,
            thread_number as int,
        ));
    }
    while i < n
        invariant
            n == s.posts.len(),
            i <= n,
            key@ == board_name@,
            views_of_posts(replies@) == spec_replies(
                prefix_store(s@, i as int),
                board_name@,
                thread_number as int,
            ),
        decreases n - i,
    {
        let ghost pre = prefix_store(s@, i as int);
        let ghost cur = prefix_store(s@, i as int + 1);
        let ghost pv = s@.posts[i as int];
        let p = &s.posts[i];
        if !p.is_thread && p.parent == thread_number && p.board == key {
            let ghost before = replies@;
            replies.push(p);
            proof {
                assert(is_reply_to(pv, board_name@, thread_number as int));
                assert(views_of_posts(replies@) =~= views_of_posts(before).push(pv));
            }
        } else {
            proof {
                assert(!is_reply_to(pv, board_name@, thread_number as int));
            }
        }
        proof {
            broadcast use Seq::lemma_filter_push;

            assert(cur.posts =~= pre.posts.push(pv));
            assert(spec_replies(cur, board_name@, thread_number as int) == if is_reply_to(
                pv,
                board_name@,
                thread_number as int,
            ) {
                spec_replies(pre, board_name@, thread_number as int).push(pv)
            } else {
                spec_replies(pre, board_name@, thread_number as int)
            });
        }
        i = i + 1;
    }
    proof {
        assert(prefix_store(s@, n as int).posts =~= s@.posts);
        assert(prefix_store(s@, n as int) =~= s@);
    }
    Some((&s.posts[root_i], replies))
}

} // verus!
