//! Resolution and validation tests: wildcard fallback, registered-name
//! priority, and constraint evaluation through a test interpreter.

use trnnut::{
    make_methods, make_modules, ConstraintsInterpreter, ConstraintsOutcome, Method, Module,
    RuntimeDomain, TRNNut, TRNNutV0, TypedValue, ValidationErr, WILDCARD,
};

/// Permits the call exactly when the arguments equal an expected list,
/// standing in for a constraint program comparing each argument to its data
/// table entry.
struct EqualityInterpreter {
    expected: Vec<TypedValue>,
}

impl ConstraintsInterpreter for EqualityInterpreter {
    fn evaluate(&self, _constraints: &[u8], args: &[TypedValue]) -> ConstraintsOutcome {
        if args.len() != self.expected.len() {
            return ConstraintsOutcome::Unsatisfied;
        }
        for (arg, want) in args.iter().zip(self.expected.iter()) {
            if arg != want {
                return ConstraintsOutcome::Unsatisfied;
            }
        }
        ConstraintsOutcome::Satisfied
    }
}

/// Fails on every blob, standing in for bytecode the interpreter cannot run.
struct FailingInterpreter;

impl ConstraintsInterpreter for FailingInterpreter {
    fn evaluate(&self, _constraints: &[u8], _args: &[TypedValue]) -> ConstraintsOutcome {
        ConstraintsOutcome::Invalid
    }
}

#[test]
fn it_validates() {
    let constraints: Vec<u8> = vec![17, 18, 19];

    let method = Method::new("method_test")
        .block_cooldown(123)
        .constraints(constraints.clone());
    let methods = make_methods(&method);

    let module = Module::new("module_test")
        .block_cooldown(86_400)
        .methods(methods);
    let modules = make_modules(&module);

    let trnnut = TRNNutV0 { modules };
    let args = [
        TypedValue::Numeric(123),
        TypedValue::StringLike(b"test".to_vec()),
    ];
    let interpreter = EqualityInterpreter {
        expected: vec![
            TypedValue::Numeric(123),
            TypedValue::StringLike(b"test".to_vec()),
        ],
    };

    assert_eq!(
        trnnut.validate_module(&module.name, &method.name, &args, &interpreter),
        Ok(())
    );
    assert_eq!(
        trnnut.validate_module("module_test2", &method.name, &args, &interpreter),
        Err(ValidationErr::NoPermission(RuntimeDomain::Module))
    );
    assert_eq!(
        trnnut.validate_module(&module.name, "method_test2", &args, &interpreter),
        Err(ValidationErr::NoPermission(RuntimeDomain::Method))
    );
}

#[test]
fn it_validates_error_with_bad_bytecode() {
    let constraints: Vec<u8> = vec![99];

    let method = Method::new("method_test")
        .block_cooldown(123)
        .constraints(constraints.clone());
    let methods = make_methods(&method);

    let module = Module::new("module_test")
        .block_cooldown(86_400)
        .methods(methods);
    let modules = make_modules(&module);

    let trnnut = TRNNutV0 { modules };
    let args = [TypedValue::StringLike(b"test".to_vec())];

    assert_eq!(
        trnnut.validate_module(&module.name, &method.name, &args, &FailingInterpreter),
        Err(ValidationErr::ConstraintsInterpretation)
    );
}

#[test]
fn it_validates_error_with_false_constraints() {
    let constraints: Vec<u8> = vec![17, 18, 19];

    let method = Method::new("method_test")
        .block_cooldown(123)
        .constraints(constraints.clone());
    let methods = make_methods(&method);

    let module = Module::new("module_test")
        .block_cooldown(86_400)
        .methods(methods);
    let modules = make_modules(&module);

    let trnnut = TRNNutV0 { modules };
    let args = [
        TypedValue::Numeric(321),
        TypedValue::StringLike(b"b".to_vec()),
    ];
    let interpreter = EqualityInterpreter {
        expected: vec![
            TypedValue::Numeric(123),
            TypedValue::StringLike(b"a".to_vec()),
        ],
    };

    assert_eq!(
        trnnut.validate_module(&module.name, &method.name, &args, &interpreter),
        Err(ValidationErr::NoPermission(RuntimeDomain::MethodArguments))
    );
}

#[test]
fn it_validates_with_empty_constraints() {
    let method = Method::new("method_test").block_cooldown(123);
    let methods = make_methods(&method);

    let module = Module::new("module_test")
        .block_cooldown(86_400)
        .methods(methods);
    let modules = make_modules(&module);

    let trnnut = TRNNutV0 { modules };
    let args = [
        TypedValue::Numeric(0),
        TypedValue::StringLike(b"test".to_vec()),
    ];

    assert_eq!(
        trnnut.validate_module(&module.name, &method.name, &args, &FailingInterpreter),
        Ok(())
    );
}

#[test]
fn wildcard_method() {
    let method = Method::new(WILDCARD).block_cooldown(123);
    let methods = make_methods(&method);

    let module = Module::new("module_test")
        .block_cooldown(1)
        .methods(methods);

    let result = module.get_method("my_unregistered_method");
    assert_ne!(result, None);
}

#[test]
fn wildcard_method_validates() {
    let method = Method::new(WILDCARD).block_cooldown(123);
    let methods = make_methods(&method);

    let module = Module::new("module_test")
        .block_cooldown(1)
        .methods(methods);
    let modules = make_modules(&module);

    let trnnut = TRNNutV0 { modules };
    let args = [];

    assert_eq!(
        trnnut.validate_module(&module.name, "my_unregistered_method", &args, &FailingInterpreter),
        Ok(())
    );
}

#[test]
fn wildcard_module() {
    let method = Method::new("registered_method").block_cooldown(123);
    let methods = make_methods(&method);

    let module = Module::new(WILDCARD).block_cooldown(1).methods(methods);
    let modules = make_modules(&module);

    let trnnut = TRNNutV0 { modules };

    let result = trnnut.get_module("my_unregistered_module");
    assert_ne!(result, None);
}

#[test]
fn wildcard_module_validates() {
    let method = Method::new("registered_method").block_cooldown(123);
    let methods = make_methods(&method);

    let module = Module::new(WILDCARD).block_cooldown(1).methods(methods);
    let modules = make_modules(&module);

    let trnnut = TRNNutV0 { modules };
    let args = [];

    assert_eq!(
        trnnut.validate_module("my_unregistered_module", "registered_method", &args, &FailingInterpreter),
        Ok(())
    );
}

#[test]
fn wildcard_module_wildcard_method_validates() {
    let method = Method::new(WILDCARD).block_cooldown(123);
    let methods = make_methods(&method);

    let module = Module::new(WILDCARD).block_cooldown(1).methods(methods);
    let modules = make_modules(&module);

    let trnnut = TRNNutV0 { modules };
    let args = [];

    assert_eq!(
        trnnut.validate_module(
            "my_unregistered_module",
            "my_unregistered_method",
            &args,
            &FailingInterpreter,
        ),
        Ok(())
    );
}

#[test]
fn unregistered_module_fails_validation() {
    let method = Method::new("registered_method").block_cooldown(123);
    let methods = make_methods(&method);

    let module = Module::new("registered_module")
        .block_cooldown(1)
        .methods(methods);
    let modules = make_modules(&module);

    let trnnut = TRNNutV0 { modules };
    let args = [];

    assert_eq!(
        trnnut.validate_module("my_unregistered_module", "registered_method", &args, &FailingInterpreter),
        Err(ValidationErr::NoPermission(RuntimeDomain::Module))
    );
}

#[test]
fn unregistered_method_fails_validation() {
    let method = Method::new("registered_method").block_cooldown(123);
    let methods = make_methods(&method);

    let module = Module::new("registered_module")
        .block_cooldown(1)
        .methods(methods);
    let modules = make_modules(&module);

    let trnnut = TRNNutV0 { modules };
    let args = [];

    assert_eq!(
        trnnut.validate_module("registered_module", "my_unregistered_method", &args, &FailingInterpreter),
        Err(ValidationErr::NoPermission(RuntimeDomain::Method))
    );
}

#[test]
fn registered_methods_have_priority_over_wildcard_methods() {
    let wild_method = Method::new(WILDCARD).block_cooldown(123);
    let registered_method = Method::new("registered_method").block_cooldown(123);

    let mut methods: Vec<(String, Method)> = Vec::default();
    methods.push((wild_method.name.clone(), wild_method.clone()));
    methods.push((registered_method.name.clone(), registered_method.clone()));

    let module = Module::new("module_test")
        .block_cooldown(1)
        .methods(methods);

    let result = module.get_method("registered_method").unwrap();

    assert_eq!(result.name, "registered_method");
}

#[test]
fn registered_modules_have_priority_over_wildcard_modules() {
    let method = Method::new("registered_method").block_cooldown(123);
    let methods = make_methods(&method);

    let wild_module = Module::new(WILDCARD)
        .block_cooldown(123)
        .methods(methods.clone());
    let registered_module = Module::new("registered_module")
        .block_cooldown(123)
        .methods(methods);

    let mut modules: Vec<(String, Module)> = Vec::default();
    modules.push((wild_module.name.clone(), wild_module.clone()));
    modules.push((registered_module.name.clone(), registered_module.clone()));

    let trnnut = TRNNutV0 { modules };

    let result = trnnut.get_module("registered_module").unwrap();

    assert_eq!(result.name, "registered_module");
}

#[test]
fn it_validates_v0_module() {
    let method = Method::new("*");
    let methods = make_methods(&method);
    let module = Module::new("module_test").methods(methods);
    let modules = make_modules(&module);

    let trnnut = TRNNut::V0(TRNNutV0 { modules });

    assert_eq!(
        trnnut.validate_runtime_call(&module.name, &method.name, &[], &FailingInterpreter),
        Ok(())
    );
}

#[test]
fn domain_messages() {
    assert_eq!(RuntimeDomain::Module.message(), "module");
    assert_eq!(RuntimeDomain::Method.message(), "method");
    assert_eq!(RuntimeDomain::MethodArguments.message(), "method arguments");
}
