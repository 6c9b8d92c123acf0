//! The client's configuration: the servers it knows, and which of them an
//! operation goes to.

use vstd::prelude::*;

verus! {

/// A server that the client knows by name.
#[derive(Debug, Clone, PartialEq, Eq)]
pub struct Server {
    pub name: String,
    pub addr: String,
    /// Whether operations go to this server unless told otherwise.
    pub default: bool,
}

/// The client's configuration.
#[derive(Debug, Clone, PartialEq, Eq)]
pub struct Settings {
    pub servers: Vec<Server>,
}

/// How the server of an operation is found.
#[derive(Debug, Clone, Copy, PartialEq, Eq, Structural)]
pub enum Choice {
    /// It is the server at this index.
    Use(usize),
    /// The user has to pick it.
    Ask,
}

/// Whether `i` is the first server that is marked as default.
pub open spec fn first_default(servers: Seq<Server>, i: int) -> bool {
    &&& 0 <= i < servers.len()
    &&& servers[i].default
    &&& forall|k: int| 0 <= k < i ==> !(#[trigger] servers[k]).default
}

/// Whether no server is marked as default.
pub open spec fn no_default(servers: Seq<Server>) -> bool {
    forall|k: int| 0 <= k < servers.len() ==> !(#[trigger] servers[k]).default
}

impl Settings {
    /// The index of the first server that is marked as default, if there is
    /// one.
    pub fn default_server(&self) -> (found: Option<usize>)
        ensures
            match found {
                Some(i) => first_default(self.servers@, i as int),
                None => no_default(self.servers@),
            },
    {
        let mut i: usize = 0;
        while i < self.servers.len()
            invariant
                i <= self.servers@.len(),
                forall|k: int| 0 <= k < i ==> !(#[trigger] self.servers@[k]).default,
            decreases self.servers@.len() - i,
        {
            if self.servers[i].default {
                return Some(i);
            }
            i += 1;
        }
        None
    }

    /// The server of an operation: the first that is marked as default;
    /// without one, the only server where there is exactly one; otherwise
    /// the user is asked.
    pub fn choose_server(&self) -> (choice: Choice)
        ensures
            match choice {
                Choice::Use(i) => first_default(self.servers@, i as int) || (no_default(
                    self.servers@,
                ) && self.servers@.len() == 1 && i == 0),
                Choice::Ask => no_default(self.servers@) && self.servers@.len() != 1,
            },
    {
        match self.default_server() {
            Some(i) => Choice::Use(i),
            None => {
                if self.servers.len() == 1 {
                    Choice::Use(0)
                } else {
                    Choice::Ask
                }
            },
        }
    }
}

} // verus!
