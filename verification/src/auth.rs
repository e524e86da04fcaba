//! The bearer of a token.
use crate::text::{split, split_text};
use vstd::prelude::*;
use vstd::string::*;

verus! {

/// What a token says of its bearer.
#[derive(Debug)]
pub struct Claims {
    pub id: String,
    /// The roles, separated by commas.
    pub rl: String,
}

impl Default for Claims {
    /// A bearer without a name or a role.
    fn default() -> (r: Claims)
        ensures
            r.id@ == Seq::<char>::empty(),
            r.rl@ == Seq::<char>::empty(),
    {
        Claims { id: String::new(), rl: String::new() }
    }
}

impl Claims {
    /// The roles of the bearer.
    pub fn get_roles(&self) -> (r: Vec<String>)
        ensures
            r.deep_view() == split(self.rl@, ','),
    {
        split_text(self.rl.as_str(), ',')
    }
}

} // verus!
