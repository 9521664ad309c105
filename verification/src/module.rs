//! A module permission record: one runtime module, with an optional block
//! cooldown and an ordered, name-keyed collection of method records.

use vstd::prelude::*;
use crate::lookup::{lookup, lookup_first, str_eq, is_wildcard, spec_wildcard};
use crate::method::{Method, MethodView};

verus! {

/// Permission to call methods of one runtime module.
#[derive(Debug, PartialEq, Eq)]
pub struct Module {
    pub name: String,
    pub block_cooldown: Option<u32>,
    pub methods: Vec<(String, Method)>,
}

/// The mathematical value of a [`Module`].
pub struct ModuleView {
    pub name: Seq<char>,
    pub block_cooldown: Option<u32>,
    pub methods: Seq<(Seq<char>, MethodView)>,
}

/// The value of a name-keyed method collection.
pub open spec fn methods_view(methods: Seq<(String, Method)>) -> Seq<(Seq<char>, MethodView)> {
    methods.map_values(|p: (String, Method)| (p.0@, p.1@))
}

impl View for Module {
    type V = ModuleView;

    open spec fn view(&self) -> ModuleView {
        ModuleView {
            name: self.name@,
            block_cooldown: self.block_cooldown,
            methods: methods_view(self.methods@),
        }
    }
}

impl Module {
    /// A new module record with no cooldown and no methods.
    pub fn new(name: &str) -> (r: Self)
        ensures
            r@ == (ModuleView {
                name: name@,
                block_cooldown: None,
                methods: Seq::<(Seq<char>, MethodView)>::empty(),
            }),
    {
        let r = Module { name: name.to_owned(), block_cooldown: None, methods: Vec::new() };
        proof {
            assert(r@.methods =~= Seq::<(Seq<char>, MethodView)>::empty());
        }
        r
    }

    /// The same record with a block cooldown declared.
    pub fn block_cooldown(self, blocks: u32) -> (r: Self)
        ensures
            r@ == (ModuleView { block_cooldown: Some(blocks), ..self@ }),
    {
        Module { block_cooldown: Some(blocks), ..self }
    }

    /// The same record with its method collection replaced.
    pub fn methods(self, methods: Vec<(String, Method)>) -> (r: Self)
        ensures
            r@ == (ModuleView { methods: methods_view(methods@), ..self@ }),
    {
        Module { methods, ..self }
    }

    /// Looks a method up by name: the first method registered under exactly
    /// this name wins; failing that, the first wildcard method; else nothing.
    pub fn get_method(&self, method: &str) -> (r: Option<&Method>)
        ensures
            match r {
                Some(m) => lookup(self@.methods, method@) == Some(m@),
                None => lookup(self@.methods, method@) is None,
            },
    {
        let ghost entries = self@.methods;
        let n = self.methods.len();
        let mut i: usize = 0;
        proof {
            assert(entries.skip(0) =~= entries);
        }
        while i < n
            invariant
                i <= n,
                n == self.methods@.len(),
                entries == self@.methods,
                entries.len() == n,
                lookup_first(entries, method@) == lookup_first(
                    entries.skip(i as int),
                    method@,
                ),
            decreases n - i,
        {
            proof {
                assert(entries.skip(i as int)[0] == entries[i as int]);
            }
            if str_eq(self.methods[i].0.as_str(), method) {
                return Some(&self.methods[i].1);
            }
            proof {
                assert(entries.skip(i as int).drop_first() =~= entries.skip(i as int + 1));
            }
            i += 1;
        }
        proof {
            assert(entries.skip(n as int) =~= Seq::<(Seq<char>, MethodView)>::empty());
        }
        let mut j: usize = 0;
        proof {
            assert(entries.skip(0) =~= entries);
        }
        while j < n
            invariant
                j <= n,
                n == self.methods@.len(),
                entries == self@.methods,
                entries.len() == n,
                lookup_first(entries, method@) is None,
                lookup_first(entries, spec_wildcard()) == lookup_first(
                    entries.skip(j as int),
                    spec_wildcard(),
                ),
            decreases n - j,
        {
            proof {
                assert(entries.skip(j as int)[0] == entries[j as int]);
            }
            if is_wildcard(self.methods[j].0.as_str()) {
                return Some(&self.methods[j].1);
            }
            proof {
                assert(entries.skip(j as int).drop_first() =~= entries.skip(j as int + 1));
            }
            j += 1;
        }
        proof {
            assert(entries.skip(n as int) =~= Seq::<(Seq<char>, MethodView)>::empty());
        }
        None
    }
}

impl Clone for Module {
    fn clone(&self) -> (r: Self)
        ensures
            r@ == self@,
    {
        let mut methods: Vec<(String, Method)> = Vec::new();
        let n = self.methods.len();
        let mut i: usize = 0;
        while i < n
            invariant
                i <= n,
                n == self.methods@.len(),
                methods@.len() == i,
                forall|k: int|
                    0 <= k < i ==> methods@[k].0@ == self.methods@[k].0@ && methods@[k].1@
                        == self.methods@[k].1@,
            decreases n - i,
        {
            methods.push((self.methods[i].0.clone(), self.methods[i].1.clone()));
            i += 1;
        }
        let r = Module {
            name: self.name.clone(),
            block_cooldown: self.block_cooldown,
            methods,
        };
        proof {
            assert(r@.methods =~= self@.methods);
        }
        r
    }
}

/// A one-entry method collection holding the given method under its own name.
pub fn make_methods(method: &Method) -> (r: Vec<(String, Method)>)
    ensures
        methods_view(r@) =~= seq![(method@.name, method@)],
{
    let mut methods: Vec<(String, Method)> = Vec::new();
    methods.push((method.name.clone(), method.clone()));
    methods
}

} // verus!
