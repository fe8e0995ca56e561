//! Posts: thread roots and replies. A post is keyed by (board, post number);
//! the number is unique only within its board.

use vstd::prelude::*;

verus! {

/// A post row. For a thread root, `parent` equals its own `post_number` and
/// `is_thread` is true; for a reply, `parent` names the root it answers and
/// `is_thread` is false. `last_modified` is a timestamp in microseconds,
/// set on roots at creation and absent on replies.
pub struct Post {
    pub post_number: i64,
    pub parent: i64,
    pub board: String,
    pub subject: Option<String>,
    pub name: String,
    pub email: String,
    pub content: String,
    pub is_thread: bool,
    pub pinned: bool,
    pub is_active: bool,
    pub last_modified: Option<i64>,
}

/// Mathematical image of a `Post`.
#[verifier::ext_equal]
pub struct PostView {
    pub post_number: int,
    pub parent: int,
    pub board: Seq<char>,
    pub subject: Option<Seq<char>>,
    pub name: Seq<char>,
    pub email: Seq<char>,
    pub content: Seq<char>,
    pub is_thread: bool,
    pub pinned: bool,
    pub is_active: bool,
    pub last_modified: Option<int>,
}

impl View for Post {
    type V = PostView;

    open spec fn view(&self) -> PostView {
        PostView {
            post_number: self.post_number as int,
            parent: self.parent as int,
            board: self.board@,
            subject: match self.subject {
                Some(s) => Some(s@),
                None => None,
            },
            name: self.name@,
            email: self.email@,
            content: self.content@,
            is_thread: self.is_thread,
            pinned: self.pinned,
            is_active: self.is_active,
            last_modified: match self.last_modified {
                Some(t) => Some(t as int),
                None => None,
            },
        }
    }
}

} // verus!
