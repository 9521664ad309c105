//! A method permission record: one callable operation within a module, with
//! an optional block cooldown and an optional constraints blob.

use vstd::prelude::*;
use vstd::slice::slice_to_vec;

verus! {

/// Permission to call one method of a runtime module.
#[derive(Debug, PartialEq, Eq)]
pub struct Method {
    pub name: String,
    pub block_cooldown: Option<u32>,
    pub constraints: Option<Vec<u8>>,
}

/// The mathematical value of a [`Method`].
pub struct MethodView {
    pub name: Seq<char>,
    pub block_cooldown: Option<u32>,
    pub constraints: Option<Seq<u8>>,
}

impl View for Method {
    type V = MethodView;

    open spec fn view(&self) -> MethodView {
        MethodView {
            name: self.name@,
            block_cooldown: self.block_cooldown,
            constraints: match self.constraints {
                Some(c) => Some(c@),
                None => None,
            },
        }
    }
}

impl Method {
    /// A new method record with no cooldown and no constraints.
    pub fn new(name: &str) -> (r: Self)
        ensures
            r@ == (MethodView { name: name@, block_cooldown: None, constraints: None }),
    {
        Method { name: name.to_owned(), block_cooldown: None, constraints: None }
    }

    /// The same record with a block cooldown declared.
    pub fn block_cooldown(self, blocks: u32) -> (r: Self)
        ensures
            r@ == (MethodView { block_cooldown: Some(blocks), ..self@ }),
    {
        Method { block_cooldown: Some(blocks), ..self }
    }

    /// The same record with a constraints blob attached.
    pub fn constraints(self, constraints: Vec<u8>) -> (r: Self)
        ensures
            r@ == (MethodView { constraints: Some(constraints@), ..self@ }),
    {
        Method { constraints: Some(constraints), ..self }
    }
}

impl Clone for Method {
    fn clone(&self) -> (r: Self)
        ensures
            r@ == self@,
    {
        Method {
            name: self.name.clone(),
            block_cooldown: self.block_cooldown,
            constraints: match &self.constraints {
                Some(c) => Some(slice_to_vec(c.as_slice())),
                None => None,
            },
        }
    }
}

} // verus!
