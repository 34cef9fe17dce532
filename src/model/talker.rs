use vstd::prelude::*;

verus! {

/// A talker: its id as scripts write it, and its display name.
#[derive(Debug, PartialEq, Eq)]
pub struct Talker(pub String, pub String);

impl Talker {
    /// The talker `unknown`, named `unknown`.
    pub fn new() -> (r: Talker)
        ensures
            r.0@ == seq!['u', 'n', 'k', 'n', 'o', 'w', 'n'],
            r.1@ == seq!['u', 'n', 'k', 'n', 'o', 'w', 'n'],
    {
        proof {
            reveal_strlit("unknown");
        }
        Talker(String::from_str("unknown"), String::from_str("unknown"))
    }

    pub fn from_strs(id: &str, name: &str) -> (r: Talker)
        ensures
            r.0@ == id@,
            r.1@ == name@,
    {
        Talker(id.to_owned(), name.to_owned())
    }

    pub fn id(&self) -> (r: &str)
        ensures
            r@ == self.0@,
    {
        self.0.as_str()
    }

    pub fn name(&self) -> (r: &str)
        ensures
            r@ == self.1@,
    {
        self.1.as_str()
    }
}

impl Default for Talker {
    fn default() -> (r: Talker)
        ensures
            r.0@ == seq!['u', 'n', 'k', 'n', 'o', 'w', 'n'],
            r.1@ == seq!['u', 'n', 'k', 'n', 'o', 'w', 'n'],
    {
        Talker::new()
    }
}

impl Clone for Talker {
    fn clone(&self) -> (r: Talker)
        ensures
            r.0@ == self.0@,
            r.1@ == self.1@,
    {
        Talker(self.0.clone(), self.1.clone())
    }
}

} // verus!
