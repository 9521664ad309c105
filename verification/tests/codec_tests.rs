//! Wire-format tests: byte-for-byte encode fixtures, decode of the same
//! fixtures, and the decode error cases.

use bit_reverse::ParallelReverse;
use trnnut::{make_methods, make_modules, DecodeError, Method, Module, TRNNut, TRNNutV0};

/// A name as its wire field: UTF-8 bytes null-padded to 32.
fn padded(name: &str) -> Vec<u8> {
    let mut v = name.as_bytes().to_vec();
    v.resize(32, 0);
    v
}

fn bytes(parts: &[&[u8]]) -> Vec<u8> {
    parts.concat()
}

/// The 69-byte fixture: one module `"module_test"`, one method
/// `"method_test"`, no cooldowns, no constraints.
fn one_module_fixture() -> Vec<u8> {
    bytes(&[&[0, 0, 0, 64], &padded("module_test"), &[0], &padded("method_test")])
}

/// A pact-encoded constraints blob: a data table of 111, 333 and
/// `"testing"`, and two equality comparisons.
fn constraints_blob() -> Vec<u8> {
    bytes(&[
        &[0, 192],
        &[128, 16],
        &[246, 0, 0, 0, 0, 0, 0, 0],
        &[128, 16],
        &[178, 128, 0, 0, 0, 0, 0, 0],
        &[0, 224],
        b"testing",
        &[5, 0, 0, 1, 0],
        &[5, 0, 1, 1, 1],
    ])
}

/// The fixture with a constraints blob on the method.
fn constraints_fixture() -> Vec<u8> {
    let blob = constraints_blob();
    bytes(&[
        &[0, 0, 0, 64],
        &padded("module_test"),
        &[64],
        &padded("method_test"),
        &[(blob.len() as u8 - 1).swap_bits()],
        &blob,
    ])
}

#[test]
fn it_works_encode() {
    let method = Method::new("method_test");
    let methods = make_methods(&method);

    let module = Module::new("module_test").methods(methods);
    let modules = make_modules(&module);

    let trnnut = TRNNutV0 { modules };
    let encoded = trnnut.encode();

    assert_eq!(encoded, one_module_fixture());
    assert_eq!(encoded[2], 0); // 1 module encodes to 0
}

#[test]
fn it_works_encode_one_module() {
    let method = Method::new("method_test");
    let methods = make_methods(&method);

    let module = Module::new("module_test").methods(methods);
    let modules = make_modules(&module);

    let trnnut = TRNNutV0 { modules };

    assert_eq!(trnnut.encode(), one_module_fixture());
}

#[test]
fn it_works_decode() {
    let encoded = one_module_fixture();
    let c: TRNNut = TRNNut::decode(&encoded).expect("it works");
    assert_eq!(c.encode(), encoded);
    let c0 = TRNNutV0::try_from(c).unwrap();
    assert_eq!(c0.modules.len(), 1);
}

/// The fixture with `block_cooldown = 86_400` on the module: header flag byte
/// 192 instead of 64, and the cooldown bytes `1, 138, 128, 0` right after the
/// module name.
fn module_cooldown_fixture() -> Vec<u8> {
    bytes(&[
        &[0, 0, 0, 192],
        &padded("module_test"),
        &[1, 138, 128, 0],
        &[0],
        &padded("method_test"),
    ])
}

#[test]
fn it_works_encode_with_module_cooldown() {
    let method = Method::new("method_test");
    let methods = make_methods(&method);

    let module = Module::new("module_test")
        .block_cooldown(86_400)
        .methods(methods);
    let modules = make_modules(&module);

    let trnnut = TRNNutV0 { modules };

    assert_eq!(trnnut.encode(), module_cooldown_fixture());
}

#[test]
fn it_works_decode_with_module_cooldown() {
    let encoded = module_cooldown_fixture();
    let c: TRNNut = TRNNut::decode(&encoded).expect("It works");
    let c0 = TRNNutV0::try_from(c).unwrap();
    assert_eq!(
        c0.get_module("module_test")
            .expect("module exists")
            .block_cooldown,
        Some(86_400)
    );
}

/// The fixture with cooldowns on both the module (86_400) and the method
/// (123, encoded as `222, 0, 0, 0` after the method name).
fn method_cooldown_fixture() -> Vec<u8> {
    bytes(&[
        &[0, 0, 0, 192],
        &padded("module_test"),
        &[1, 138, 128, 0],
        &[128],
        &padded("method_test"),
        &[222, 0, 0, 0],
    ])
}

#[test]
fn it_works_encode_with_method_cooldown() {
    let method = Method::new("method_test").block_cooldown(123);
    let methods = make_methods(&method);

    let module = Module::new("module_test")
        .block_cooldown(86_400)
        .methods(methods);
    let modules = make_modules(&module);

    let trnnut = TRNNutV0 { modules };

    assert_eq!(trnnut.encode(), method_cooldown_fixture());
}

#[test]
fn it_works_decode_with_method_cooldown() {
    let encoded = method_cooldown_fixture();
    let c: TRNNut = TRNNut::decode(&encoded).expect("It works");
    let c0 = TRNNutV0::try_from(c).unwrap();
    assert_eq!(
        c0.get_module("module_test")
            .expect("module exists")
            .block_cooldown,
        Some(86_400)
    );
    assert_eq!(
        c0.get_module("module_test")
            .expect("module exists")
            .get_method("method_test")
            .expect("method exists")
            .block_cooldown,
        Some(123)
    );
}

#[test]
fn it_works_decode_with_version_0() {
    let encoded: Vec<u8> = vec![1, 2, 3, 192];
    assert_eq!(
        TRNNutV0::decode(&encoded),
        Err(DecodeError::ExpectedVersionZero)
    );
    assert_eq!(
        DecodeError::ExpectedVersionZero.message(),
        "expected version : 0"
    );
}

#[test]
fn it_works_encode_with_constraints() {
    let constraints = constraints_blob();

    let method = Method::new("method_test").constraints(constraints.clone());
    let methods = make_methods(&method);

    let module = Module::new("module_test").methods(methods);
    let modules = make_modules(&module);

    let trnnut = TRNNutV0 { modules };
    let encoded = trnnut.encode();

    assert_eq!(encoded, constraints_fixture());
    let constraints_length_byte_cursor: usize = 4 + 32 + 1 + 32;
    let len_byte = constraints.len() as u8;
    assert_eq!(
        encoded[constraints_length_byte_cursor],
        (len_byte - 1).swap_bits()
    );
}

#[test]
fn it_works_decode_with_constraints() {
    let encoded = constraints_fixture();
    let c: TRNNut = TRNNut::decode(&encoded).expect("it works");
    assert_eq!(c.encode(), encoded);

    let c0 = TRNNutV0::try_from(c).unwrap();
    let method = c0
        .get_module("module_test")
        .expect("module exists")
        .get_method("method_test")
        .expect("method exists");

    if let Some(constraints) = &method.constraints {
        let constraints_length_byte_cursor: usize = 4 + 32 + 1 + 32;
        let len_byte = constraints.len() as u8;
        assert_eq!(
            encoded[constraints_length_byte_cursor].swap_bits() + 1,
            len_byte,
        );
    };
}

#[test]
fn it_works_with_lots_of_things_codec() {
    let method = Method::new("method_test").block_cooldown(123);
    let method2 = Method::new("method_test2").block_cooldown(321);

    let mut methods: Vec<(String, Method)> = Vec::default();
    methods.push((method.name.clone(), method.clone()));
    methods.push((method2.name.clone(), method2.clone()));

    let module = Module::new("module_test")
        .block_cooldown(86_400)
        .methods(methods.clone());
    let module2 = Module::new("module_test2")
        .block_cooldown(55_555)
        .methods(methods.clone());

    let mut modules: Vec<(String, Module)> = Vec::default();
    modules.push((module.name.clone(), module.clone()));
    modules.push((module2.name.clone(), module2.clone()));

    let trnnut = TRNNutV0 { modules };

    // two methods with cooldowns, shared by both modules
    let two_methods = bytes(&[
        &[128],
        &padded("method_test"),
        &[222, 0, 0, 0],
        &[128],
        &padded("method_test2"),
        &[130, 128, 0, 0],
    ]);
    let encoded = bytes(&[
        &[0, 0, 128, 160],
        &padded("module_test"),
        &[1, 138, 128, 0],
        &two_methods,
        &[160],
        &padded("module_test2"),
        &[192, 155, 0, 0],
        &two_methods,
    ]);
    assert_eq!(trnnut.encode(), encoded);
    assert_eq!(trnnut, TRNNutV0::decode(&encoded).unwrap());
}

#[test]
fn it_fails_decode_with_invalid_constraints() {
    // one module, one method whose header announces a constraints blob
    let encoded_trnnut = bytes(&[
        &[0, 0, 0, 64],
        &padded("module_test"),
        &[64],
        &padded("method_test"),
    ]);

    let bad_type_id: Vec<u8> = vec![3, 0, 0b1000_0000, 0b0000_0001, 0b0000_0001];
    let n_too_short: Vec<u8> = vec![1, 0, 1];
    let n_too_large: Vec<u8> = vec![3, 0, 0b1000_0000, 0b1000_0000, 0b0000_1111];

    let encoded_with_bad_type_id: Vec<u8> = [encoded_trnnut.clone(), bad_type_id].concat();
    let encoded_with_n_too_short: Vec<u8> = [encoded_trnnut.clone(), n_too_short].concat();
    let encoded_with_n_too_large: Vec<u8> = [encoded_trnnut, n_too_large].concat();

    assert_eq!(
        TRNNut::decode(&encoded_with_bad_type_id),
        Err(DecodeError::InvalidConstraints),
    );
    assert_eq!(
        TRNNut::decode(&encoded_with_n_too_short),
        Err(DecodeError::InvalidConstraints),
    );
    assert_eq!(
        TRNNut::decode(&encoded_with_n_too_large),
        Err(DecodeError::InvalidConstraints),
    );
    assert_eq!(
        DecodeError::InvalidConstraints.message(),
        "invalid constraints codec"
    );
}

#[test]
fn unexpected_version_fails_decode() {
    assert_eq!(
        TRNNut::decode(&[1, 0, 0, 64]),
        Err(DecodeError::UnexpectedVersion)
    );
    assert_eq!(
        TRNNut::decode(&[0, 2, 0, 64]),
        Err(DecodeError::UnexpectedVersion)
    );
    assert_eq!(
        DecodeError::UnexpectedVersion.message(),
        "unexpected version"
    );
}

#[test]
fn truncated_input_fails_decode() {
    assert_eq!(TRNNut::decode(&[]), Err(DecodeError::NotEnoughData));
    assert_eq!(TRNNut::decode(&[0]), Err(DecodeError::NotEnoughData));
    assert_eq!(TRNNut::decode(&[0, 0]), Err(DecodeError::NotEnoughData));
    // module header present but the name field cut short
    assert_eq!(
        TRNNut::decode(&[0, 0, 0, 64, 109, 111, 100]),
        Err(DecodeError::NotEnoughData)
    );
}

#[test]
fn trailing_bytes_fail_decode() {
    let mut encoded = one_module_fixture();
    encoded.push(7);
    assert_eq!(TRNNut::decode(&encoded), Err(DecodeError::TrailingData));
}

#[test]
fn undefined_flag_bits_fail_decode() {
    // the method header byte sets a presence bit the format does not define
    let encoded = bytes(&[
        &[0, 0, 0, 64],
        &padded("module_test"),
        &[32],
        &padded("method_test"),
    ]);
    assert_eq!(TRNNut::decode(&encoded), Err(DecodeError::InvalidFlags));
}

#[test]
fn non_utf8_name_fails_decode() {
    let encoded = bytes(&[&[0, 0, 0, 64], &[0xFF; 32]]);
    assert_eq!(TRNNut::decode(&encoded), Err(DecodeError::InvalidName));
}

#[test]
fn swap_bits_agrees_with_bit_reverse_crate() {
    for b in 0..=255u8 {
        assert_eq!(trnnut::bits::swap_bits(b), b.swap_bits());
    }
}

#[test]
fn constraints_length_byte_round_trips_every_length() {
    for len in 1..=256usize {
        let stored = ((len - 1) as u8).swap_bits();
        let recovered = stored.swap_bits() as usize + 1;
        assert_eq!(recovered, len);
    }
}

#[test]
fn largest_constraints_blob_round_trips() {
    let blob: Vec<u8> = vec![7; 256];
    let method = Method::new("m").constraints(blob.clone());
    let module = Module::new("module_test").methods(make_methods(&method));
    let trnnut = TRNNutV0 { modules: make_modules(&module) };
    let encoded = trnnut.encode();
    assert_eq!(encoded[4 + 32 + 1 + 32], 255u8.swap_bits());
    let decoded = TRNNutV0::decode(&encoded).unwrap();
    assert_eq!(decoded, trnnut);
    let constraints = decoded
        .get_module("module_test")
        .expect("module exists")
        .get_method("m")
        .expect("method exists")
        .constraints
        .clone();
    assert_eq!(constraints, Some(blob));
}

#[test]
fn empty_name_round_trips() {
    let method = Method::new("");
    let module = Module::new("").methods(make_methods(&method));
    let trnnut = TRNNutV0 { modules: make_modules(&module) };
    let decoded = TRNNutV0::decode(&trnnut.encode()).unwrap();
    assert_eq!(decoded, trnnut);
}

#[test]
fn constraints_presence_survives_decode() {
    let with_v0 =
        TRNNutV0::try_from(TRNNut::decode(&constraints_fixture()).expect("it works")).unwrap();
    let blob = &with_v0
        .get_module("module_test")
        .expect("module exists")
        .get_method("method_test")
        .expect("method exists")
        .constraints;
    assert_eq!(*blob, Some(constraints_blob()));

    let without_v0 =
        TRNNutV0::try_from(TRNNut::decode(&one_module_fixture()).expect("it works")).unwrap();
    let blob2 = &without_v0
        .get_module("module_test")
        .expect("module exists")
        .get_method("method_test")
        .expect("method exists")
        .constraints;
    assert_eq!(*blob2, None);
}

#[test]
fn make_helpers_key_by_name() {
    let method = Method::new("method_test").block_cooldown(5);
    let methods = make_methods(&method);
    assert_eq!(methods.len(), 1);
    assert_eq!(methods[0].0, "method_test");
    assert_eq!(methods[0].1, method);

    let module = Module::new("module_test").methods(methods);
    let modules = make_modules(&module);
    assert_eq!(modules.len(), 1);
    assert_eq!(modules[0].0, "module_test");
    assert_eq!(modules[0].1, module);
}
