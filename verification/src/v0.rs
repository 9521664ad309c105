//! The version-0 payload: an ordered, name-keyed collection of module
//! records, with wildcard-aware lookup and runtime-call validation.

use vstd::prelude::*;
use crate::interpreter::{constraints_result, ConstraintsInterpreter, TypedValue};
use crate::lookup::{lookup, lookup_first, str_eq, is_wildcard, spec_wildcard};
use crate::module::{methods_view, Module, ModuleView};
use crate::validation::{RuntimeDomain, ValidationErr};

verus! {

/// The version-0 permission payload.
#[derive(Debug, PartialEq, Eq)]
pub struct TRNNutV0 {
    pub modules: Vec<(String, Module)>,
}

/// The mathematical value of a [`TRNNutV0`].
pub struct V0View {
    pub modules: Seq<(Seq<char>, ModuleView)>,
}

/// The value of a name-keyed module collection.
pub open spec fn modules_view(modules: Seq<(String, Module)>) -> Seq<(Seq<char>, ModuleView)> {
    modules.map_values(|p: (String, Module)| (p.0@, p.1@))
}

impl View for TRNNutV0 {
    type V = V0View;

    open spec fn view(&self) -> V0View {
        V0View { modules: modules_view(self.modules@) }
    }
}

/// What validating a runtime call must return: resolution failures are fixed
/// exactly; where a constraints blob is present, the result is one of the
/// three outcomes the interpreter can dictate.
pub open spec fn spec_validate_module(
    nut: V0View,
    module: Seq<char>,
    method: Seq<char>,
    r: Result<(), ValidationErr<RuntimeDomain>>,
) -> bool {
    match lookup(nut.modules, module) {
        None => r == Err::<(), _>(ValidationErr::NoPermission(RuntimeDomain::Module)),
        Some(md) => match lookup(md.methods, method) {
            None => r == Err::<(), _>(ValidationErr::NoPermission(RuntimeDomain::Method)),
            Some(mt) => match mt.constraints {
                None => r == Ok::<(), ValidationErr<RuntimeDomain>>(()),
                Some(_) => r == Ok::<(), ValidationErr<RuntimeDomain>>(()) || r == Err::<(), _>(
                    ValidationErr::NoPermission(RuntimeDomain::MethodArguments),
                ) || r == Err::<(), _>(ValidationErr::<RuntimeDomain>::ConstraintsInterpretation),
            },
        },
    }
}

impl TRNNutV0 {
    /// Looks a module up by name: the first module registered under exactly
    /// this name wins; failing that, the first wildcard module; else nothing.
    pub fn get_module(&self, module: &str) -> (r: Option<&Module>)
        ensures
            match r {
                Some(m) => lookup(self@.modules, module@) == Some(m@),
                None => lookup(self@.modules, module@) is None,
            },
    {
        let ghost entries = self@.modules;
        let n = self.modules.len();
        let mut i: usize = 0;
        proof {
            assert(entries.skip(0) =~= entries);
        }
        while i < n
            invariant
                i <= n,
                n == self.modules@.len(),
                entries == self@.modules,
                entries.len() == n,
                lookup_first(entries, module@) == lookup_first(
                    entries.skip(i as int),
                    module@,
                ),
            decreases n - i,
        {
            proof {
                assert(entries.skip(i as int)[0] == entries[i as int]);
            }
            if str_eq(self.modules[i].0.as_str(), module) {
                return Some(&self.modules[i].1);
            }
            proof {
                assert(entries.skip(i as int).drop_first() =~= entries.skip(i as int + 1));
            }
            i += 1;
        }
        proof {
            assert(entries.skip(n as int) =~= Seq::<(Seq<char>, ModuleView)>::empty());
        }
        let mut j: usize = 0;
        proof {
            assert(entries.skip(0) =~= entries);
        }
        while j < n
            invariant
                j <= n,
                n == self.modules@.len(),
                entries == self@.modules,
                entries.len() == n,
                lookup_first(entries, module@) is None,
                lookup_first(entries, spec_wildcard()) == lookup_first(
                    entries.skip(j as int),
                    spec_wildcard(),
                ),
            decreases n - j,
        {
            proof {
                assert(entries.skip(j as int)[0] == entries[j as int]);
            }
            if is_wildcard(self.modules[j].0.as_str()) {
                return Some(&self.modules[j].1);
            }
            proof {
                assert(entries.skip(j as int).drop_first() =~= entries.skip(j as int + 1));
            }
            j += 1;
        }
        proof {
            assert(entries.skip(n as int) =~= Seq::<(Seq<char>, ModuleView)>::empty());
        }
        None
    }

    /// Validates a runtime call `(module, method, args)` against this
    /// payload: resolves the module, then the method, by the wildcard rule,
    /// and evaluates the resolved method's constraints, if any, against the
    /// arguments through the given interpreter.
    pub fn validate_module<I: ConstraintsInterpreter>(
        &self,
        module_name: &str,
        method_name: &str,
        args: &[TypedValue],
        interpreter: &I,
    ) -> (r: Result<(), ValidationErr<RuntimeDomain>>)
        ensures
            spec_validate_module(self@, module_name@, method_name@, r),
    {
        let module = match self.get_module(module_name) {
            Some(m) => m,
            None => {
                return Err(ValidationErr::NoPermission(RuntimeDomain::Module));
            },
        };
        let method = match module.get_method(method_name) {
            Some(m) => m,
            None => {
                return Err(ValidationErr::NoPermission(RuntimeDomain::Method));
            },
        };
        match &method.constraints {
            None => Ok(()),
            Some(blob) => constraints_result(interpreter.evaluate(blob.as_slice(), args)),
        }
    }
}

/// A one-entry module collection holding the given module under its own name.
pub fn make_modules(module: &Module) -> (r: Vec<(String, Module)>)
    ensures
        modules_view(r@) =~= seq![(module@.name, module@)],
{
    let mut modules: Vec<(String, Module)> = Vec::new();
    modules.push((module.name.clone(), module.clone()));
    modules
}

} // verus!
