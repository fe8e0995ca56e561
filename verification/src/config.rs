//! Process configuration: the site name, the boards it serves, and its
//! posting rules. Loading the file and binding the port belong to the
//! unverified shell around the library.

use vstd::prelude::*;

use crate::board::Board;

verus! {

/// Static configuration of the site.
pub struct Config {
    pub name: String,
    pub boards: Vec<Board>,
    pub rules: Vec<String>,
    pub port: Option<String>,
    pub proxy_ip_header: Option<String>,
}

impl Config {
    /// The configured board with this short name, if any.
    pub fn get_board<'a>(&'a self, short_name: &String) -> (r: Option<&'a Board>)
        ensures
            match r {
                Some(b) => b.short_name@ == short_name@ && exists|i: int|
                    0 <= i < self.boards@.len() && #[trigger] self.boards@[i] == *b && forall|
                        j: int,
                    |
                        0 <= j < i ==> (#[trigger] self.boards@[j]).short_name@ != short_name@,
                None => forall|i: int|
                    0 <= i < self.boards@.len() ==> (#[trigger] self.boards@[i]).short_name@
                        != short_name@,
            },
    {
        let n = self.boards.len();
        let mut i: usize = 0;
        while i < n
            invariant
                n == self.boards@.len(),
                i <= n,
                forall|j: int|
                    0 <= j < i ==> (#[trigger] self.boards@[j]).short_name@ != short_name@,
            decreases n - i,
        {
            if self.boards[i].short_name == *short_name {
                return Some(&self.boards[i]);
            }
            i = i + 1;
        }
        None
    }
}

} // verus!
