//! The format's laws, proved: encoding and decoding are exact inverses, the
//! version gate never lets a non-zero version through, the constraints length
//! byte recovers every length, and a registered name always beats a wildcard.

use vstd::prelude::*;
use vstd::utf8::{
    decode_utf8, decode_utf8_encode_utf8, encode_utf8, encode_utf8_decode_utf8,
    encode_utf8_valid_utf8, valid_utf8,
};
use crate::bits::{
    cooldown_bytes, cooldown_value, lemma_cooldown_bytes_value, lemma_cooldown_value_bytes,
    lemma_rev8_involution, rev8,
};
use crate::codec::{lemma_enc_methods_concat, lemma_enc_modules_concat};
use crate::errors::DecodeError;
use crate::lookup::{lookup, lookup_first};
use crate::method::MethodView;
use crate::module::ModuleView;
use crate::v0::V0View;
use crate::wire::{
    canonical_method, canonical_module, canonical_name, canonical_payload, enc_method,
    enc_methods, enc_module, enc_modules, enc_nut, enc_opt_constraints, enc_opt_cooldown,
    enc_payload, lemma_pad_strip, lemma_strip_pad, lemma_strip_properties, method_flags,
    module_flags, pad_name, spec_dec_method, spec_dec_methods, spec_dec_module, spec_dec_modules,
    spec_dec_name, spec_dec_nut, spec_dec_payload, spec_dec_v0, strip_trailing_zeros,
};

verus! {

// ---------------------------------------------------------------------------
// One record: decoding its encoding gives it back
// ---------------------------------------------------------------------------
proof fn lemma_dec_enc_name(name: Seq<char>)
    requires
        canonical_name(name),
    ensures
        pad_name(encode_utf8(name)).len() == 32,
        spec_dec_name(pad_name(encode_utf8(name))) == Ok::<Seq<char>, DecodeError>(name),
{
    let nb = encode_utf8(name);
    lemma_strip_pad(nb);
    encode_utf8_valid_utf8(name);
    encode_utf8_decode_utf8(name);
}

#[verifier::rlimit(100)]
pub proof fn lemma_dec_enc_method(m: MethodView, rest: Seq<u8>)
    requires
        canonical_method(m),
    ensures
        spec_dec_method(enc_method(m) + rest) == Ok::<(MethodView, Seq<u8>), DecodeError>(
            (m, rest),
        ),
{
    let f = method_flags(m);
    let cdb: u8 = if m.block_cooldown is Some {
        0x01u8
    } else {
        0u8
    };
    let csb: u8 = if m.constraints is Some {
        0x02u8
    } else {
        0u8
    };
    assert(f == (cdb | csb));
    assert((f & 0xFC == 0) && ((f & 0x01 == 0x01) <==> cdb == 1) && ((f & 0x02 == 0x02) <==> csb
        == 2)) by (bit_vector)
        requires
            (cdb == 0 || cdb == 1),
            (csb == 0 || csb == 2),
            f == (cdb | csb),
    ;
    let nb = encode_utf8(m.name);
    let pn = pad_name(nb);
    lemma_dec_enc_name(m.name);
    let b = enc_method(m) + rest;
    assert(b.len() >= 33);
    assert(b[0] == rev8(f));
    lemma_rev8_involution(f);
    assert(rev8(b[0]) == f);
    assert(b.subrange(1, 33) =~= pn);
    let after_name = b.skip(33);
    assert(after_name =~= enc_opt_cooldown(m.block_cooldown) + enc_opt_constraints(m.constraints)
        + rest);
    let cs_and_rest = enc_opt_constraints(m.constraints) + rest;
    if m.block_cooldown is Some {
        let c = m.block_cooldown->0;
        assert(enc_opt_cooldown(m.block_cooldown) == cooldown_bytes(c));
        assert(after_name.len() >= 4);
        assert(after_name[0] == cooldown_bytes(c)[0]);
        assert(after_name[1] == cooldown_bytes(c)[1]);
        assert(after_name[2] == cooldown_bytes(c)[2]);
        assert(after_name[3] == cooldown_bytes(c)[3]);
        lemma_cooldown_value_bytes(c);
        assert(cooldown_value(after_name[0], after_name[1], after_name[2], after_name[3]) == c);
        assert(after_name.skip(4) =~= cs_and_rest);
    } else {
        assert(after_name =~= cs_and_rest);
    }
    if m.constraints is Some {
        let blob = m.constraints->0;
        let l = blob.len() as int;
        assert(1 <= l <= 256);
        let lb = rev8((l - 1) as u8);
        assert(cs_and_rest[0] == lb);
        lemma_rev8_involution((l - 1) as u8);
        assert(rev8(lb) == (l - 1) as u8);
        assert(rev8(lb) as int + 1 == l);
        assert(cs_and_rest.len() == 1 + l + rest.len());
        assert(cs_and_rest.subrange(1, 1 + l) =~= blob);
        assert(cs_and_rest.skip(1 + l) =~= rest);
    }
}

#[verifier::rlimit(100)]
pub proof fn lemma_dec_enc_methods(ms: Seq<(Seq<char>, MethodView)>, rest: Seq<u8>)
    requires
        forall|i: int| 0 <= i < ms.len() ==> canonical_method(#[trigger] ms[i].1) && ms[i].0
            == ms[i].1.name,
    ensures
        spec_dec_methods(enc_methods(ms) + rest, ms.len() as nat) == Ok::<
            (Seq<(Seq<char>, MethodView)>, Seq<u8>),
            DecodeError,
        >((ms, rest)),
    decreases ms.len(),
{
    if ms.len() == 0 {
        assert(enc_methods(ms) + rest =~= rest);
        assert(ms =~= Seq::<(Seq<char>, MethodView)>::empty());
    } else {
        let tail = ms.drop_first();
        assert(enc_methods(ms) + rest =~= enc_method(ms[0].1) + (enc_methods(tail) + rest));
        lemma_dec_enc_method(ms[0].1, enc_methods(tail) + rest);
        lemma_dec_enc_methods(tail, rest);
        assert(seq![(ms[0].1.name, ms[0].1)] + tail =~= ms);
    }
}

#[verifier::rlimit(100)]
pub proof fn lemma_dec_enc_module(m: ModuleView, rest: Seq<u8>)
    requires
        canonical_module(m),
    ensures
        spec_dec_module(enc_module(m) + rest) == Ok::<(ModuleView, Seq<u8>), DecodeError>(
            (m, rest),
        ),
{
    let f = module_flags(m);
    let cdb: u8 = if m.block_cooldown is Some {
        0x01u8
    } else {
        0u8
    };
    let lenu8 = m.methods.len() as u8;
    assert(f == ((lenu8 << 1) | cdb));
    assert(((f & 0x01 == 0x01) <==> cdb == 1) && (f >> 1) == lenu8) by (bit_vector)
        requires
            lenu8 <= 127,
            (cdb == 0 || cdb == 1),
            f == ((lenu8 << 1) | cdb),
    ;
    let nb = encode_utf8(m.name);
    let pn = pad_name(nb);
    lemma_dec_enc_name(m.name);
    let b = enc_module(m) + rest;
    assert(b.len() >= 33);
    assert(b[0] == rev8(f));
    lemma_rev8_involution(f);
    assert(rev8(b[0]) == f);
    assert(b.subrange(1, 33) =~= pn);
    let after_name = b.skip(33);
    assert(after_name =~= enc_opt_cooldown(m.block_cooldown) + (enc_methods(m.methods) + rest));
    let methods_and_rest = enc_methods(m.methods) + rest;
    if m.block_cooldown is Some {
        let c = m.block_cooldown->0;
        assert(after_name.len() >= 4);
        assert(after_name[0] == cooldown_bytes(c)[0]);
        assert(after_name[1] == cooldown_bytes(c)[1]);
        assert(after_name[2] == cooldown_bytes(c)[2]);
        assert(after_name[3] == cooldown_bytes(c)[3]);
        lemma_cooldown_value_bytes(c);
        assert(cooldown_value(after_name[0], after_name[1], after_name[2], after_name[3]) == c);
        assert(after_name.skip(4) =~= methods_and_rest);
    } else {
        assert(after_name =~= methods_and_rest);
    }
    assert forall|i: int| 0 <= i < m.methods.len() implies canonical_method(
        #[trigger] m.methods[i].1,
    ) && m.methods[i].0 == m.methods[i].1.name by {
        assert(m.methods[i].0 == m.methods[i].1.name);
    }
    lemma_dec_enc_methods(m.methods, rest);
    assert((f >> 1) as nat == m.methods.len());
}

#[verifier::rlimit(100)]
pub proof fn lemma_dec_enc_modules(ms: Seq<(Seq<char>, ModuleView)>, rest: Seq<u8>)
    requires
        forall|i: int| 0 <= i < ms.len() ==> canonical_module(#[trigger] ms[i].1) && ms[i].0
            == ms[i].1.name,
    ensures
        spec_dec_modules(enc_modules(ms) + rest, ms.len() as nat) == Ok::<
            (Seq<(Seq<char>, ModuleView)>, Seq<u8>),
            DecodeError,
        >((ms, rest)),
    decreases ms.len(),
{
    if ms.len() == 0 {
        assert(enc_modules(ms) + rest =~= rest);
        assert(ms =~= Seq::<(Seq<char>, ModuleView)>::empty());
    } else {
        let tail = ms.drop_first();
        assert(enc_modules(ms) + rest =~= enc_module(ms[0].1) + (enc_modules(tail) + rest));
        lemma_dec_enc_module(ms[0].1, enc_modules(tail) + rest);
        lemma_dec_enc_modules(tail, rest);
        assert(seq![(ms[0].1.name, ms[0].1)] + tail =~= ms);
    }
}

/// Round trip, first direction: every canonical payload decodes from its own
/// encoding, back to itself, under either version gate.
pub proof fn lemma_round_trip_encode_decode(v: V0View)
    requires
        canonical_payload(v),
    ensures
        spec_dec_nut(enc_nut(v)) == Ok::<V0View, DecodeError>(v),
        spec_dec_v0(enc_nut(v)) == Ok::<V0View, DecodeError>(v),
        spec_dec_payload(enc_payload(v)) == Ok::<V0View, DecodeError>(v),
{
    let n = v.modules.len() as int;
    let p = enc_payload(v);
    assert(p[0] == rev8((n - 1) as u8));
    lemma_rev8_involution((n - 1) as u8);
    assert(rev8(p[0]) == (n - 1) as u8);
    assert(rev8(p[0]) as nat + 1 == n as nat);
    assert forall|i: int| 0 <= i < v.modules.len() implies canonical_module(
        #[trigger] v.modules[i].1,
    ) && v.modules[i].0 == v.modules[i].1.name by {
        assert(v.modules[i].0 == v.modules[i].1.name);
    }
    lemma_dec_enc_modules(v.modules, seq![]);
    assert(p.skip(1) =~= enc_modules(v.modules) + seq![]);
    assert(spec_dec_modules(p.skip(1), n as nat) == Ok::<
        (Seq<(Seq<char>, ModuleView)>, Seq<u8>),
        DecodeError,
    >((v.modules, seq![])));
    let b = enc_nut(v);
    assert(b.len() >= 3);
    assert(b[0] == 0 && b[1] == 0);
    assert(b.skip(2) =~= p);
}

// ---------------------------------------------------------------------------
// One record: whatever decodes, re-encodes to the same bytes
// ---------------------------------------------------------------------------
#[verifier::rlimit(100)]
pub proof fn lemma_enc_dec_method(b: Seq<u8>)
    ensures
        match spec_dec_method(b) {
            Ok((m, rest)) => canonical_method(m) && enc_method(m) + rest == b,
            Err(_) => true,
        },
{
    if spec_dec_method(b) is Ok {
        let f = rev8(b[0]);
        lemma_rev8_involution(f);
        assert(rev8(f) == rev8(rev8(b[0])));
        lemma_rev8_involution(b[0]);
        assert(rev8(f) == b[0]);
        let region = b.subrange(1, 33);
        let stripped = strip_trailing_zeros(region);
        lemma_strip_properties(region);
        assert(valid_utf8(stripped));
        let name = decode_utf8(stripped);
        decode_utf8_encode_utf8(stripped);
        assert(encode_utf8(name) == stripped);
        assert(canonical_name(name));
        lemma_pad_strip(region);
        assert(pad_name(encode_utf8(name)) == region);
        let after_name = b.skip(33);
        let (m, rest) = spec_dec_method(b)->Ok_0;
        assert(m.name == name);
        assert(f & 0xFC == 0);
        let cdb: u8 = if m.block_cooldown is Some {
            0x01u8
        } else {
            0u8
        };
        let csb: u8 = if m.constraints is Some {
            0x02u8
        } else {
            0u8
        };
        assert((f & 0x01 == 0 || f & 0x01 == 1) && (f & 0x02 == 0 || f & 0x02 == 2))
            by (bit_vector);
        assert(cdb == (f & 0x01) && csb == (f & 0x02));
        assert(method_flags(m) == (cdb | csb));
        assert((f & 0x01) | (f & 0x02) == f) by (bit_vector)
            requires
                f & 0xFC == 0,
        ;
        assert(method_flags(m) == f);
        let r1 = if f & 0x01 == 0x01 {
            after_name.skip(4)
        } else {
            after_name
        };
        if f & 0x01 == 0x01 {
            let c = cooldown_value(after_name[0], after_name[1], after_name[2], after_name[3]);
            lemma_cooldown_bytes_value(
                after_name[0],
                after_name[1],
                after_name[2],
                after_name[3],
            );
            assert(m.block_cooldown == Some(c));
            assert(enc_opt_cooldown(m.block_cooldown) == seq![
                after_name[0],
                after_name[1],
                after_name[2],
                after_name[3],
            ]);
        }
        if f & 0x02 == 0x02 {
            let l = rev8(r1[0]) as int + 1;
            let blob = r1.subrange(1, 1 + l);
            assert(m.constraints == Some(blob));
            assert(blob.len() == l);
            assert((l - 1) as u8 == rev8(r1[0]));
            lemma_rev8_involution(r1[0]);
            assert(rev8((l - 1) as u8) == r1[0]);
            assert(enc_opt_constraints(m.constraints) == seq![r1[0]] + blob);
            assert(rest == r1.skip(1 + l));
            assert(enc_method(m) + rest =~= b);
        } else {
            assert(m.constraints is None);
            assert(rest == r1);
            assert(enc_method(m) + rest =~= b);
        }
    }
}

#[verifier::rlimit(100)]
pub proof fn lemma_enc_dec_methods(b: Seq<u8>, k: nat)
    ensures
        match spec_dec_methods(b, k) {
            Ok((ms, rest)) => ms.len() == k && (forall|i: int|
                0 <= i < ms.len() ==> canonical_method(#[trigger] ms[i].1) && ms[i].0
                    == ms[i].1.name) && enc_methods(ms) + rest == b,
            Err(_) => true,
        },
    decreases k,
{
    if k > 0 {
        match spec_dec_method(b) {
            Ok((m, r1)) => {
                lemma_enc_dec_method(b);
                lemma_enc_dec_methods(r1, (k - 1) as nat);
                match spec_dec_methods(r1, (k - 1) as nat) {
                    Ok((ms2, rest)) => {
                        let ms = seq![(m.name, m)] + ms2;
                        lemma_enc_methods_concat(seq![(m.name, m)], ms2);
                        assert(seq![(m.name, m)].drop_first() =~= Seq::<
                            (Seq<char>, MethodView),
                        >::empty());
                        assert(enc_methods(seq![(m.name, m)]) == enc_method(m) + enc_methods(
                            seq![(m.name, m)].drop_first(),
                        ));
                        assert(enc_methods(seq![(m.name, m)]) =~= enc_method(m));
                        assert(enc_methods(ms) + rest =~= enc_method(m) + (enc_methods(ms2)
                            + rest));
                        assert(enc_methods(ms) + rest =~= b);
                    },
                    Err(_) => {},
                }
            },
            Err(_) => {},
        }
    }
}

#[verifier::rlimit(100)]
pub proof fn lemma_enc_dec_module(b: Seq<u8>)
    ensures
        match spec_dec_module(b) {
            Ok((m, rest)) => canonical_module(m) && enc_module(m) + rest == b,
            Err(_) => true,
        },
{
    if spec_dec_module(b) is Ok {
        let f = rev8(b[0]);
        lemma_rev8_involution(b[0]);
        assert(rev8(f) == b[0]);
        let region = b.subrange(1, 33);
        let stripped = strip_trailing_zeros(region);
        lemma_strip_properties(region);
        let name = decode_utf8(stripped);
        decode_utf8_encode_utf8(stripped);
        assert(encode_utf8(name) == stripped);
        assert(canonical_name(name));
        lemma_pad_strip(region);
        assert(pad_name(encode_utf8(name)) == region);
        let after_name = b.skip(33);
        let (m, rest) = spec_dec_module(b)->Ok_0;
        assert(m.name == name);
        let r1 = if f & 0x01 == 0x01 {
            after_name.skip(4)
        } else {
            after_name
        };
        if f & 0x01 == 0x01 {
            let c = cooldown_value(after_name[0], after_name[1], after_name[2], after_name[3]);
            lemma_cooldown_bytes_value(
                after_name[0],
                after_name[1],
                after_name[2],
                after_name[3],
            );
            assert(m.block_cooldown == Some(c));
            assert(enc_opt_cooldown(m.block_cooldown) == seq![
                after_name[0],
                after_name[1],
                after_name[2],
                after_name[3],
            ]);
        }
        lemma_enc_dec_methods(r1, (f >> 1) as nat);
        match spec_dec_methods(r1, (f >> 1) as nat) {
            Ok((ms2, rest2)) => {
                assert(m.methods == ms2);
                assert(rest == rest2);
                assert(m.methods.len() == (f >> 1) as nat);
                let lenu8 = m.methods.len() as u8;
                assert(lenu8 == f >> 1);
                let cdb: u8 = if m.block_cooldown is Some {
                    0x01u8
                } else {
                    0u8
                };
                assert((f & 0x01 == 0 || f & 0x01 == 1) && (f >> 1) <= 127) by (bit_vector);
                assert(cdb == (f & 0x01));
                assert(m.methods.len() == (f >> 1) as nat);
                assert(lenu8 <= 127);
                assert(lenu8 == f >> 1);
                assert(module_flags(m) == (lenu8 << 1) | cdb);
                assert(module_flags(m) == ((f >> 1) << 1) | (f & 0x01));
                assert((((f >> 1) << 1) | (f & 0x01)) == f) by (bit_vector);
                assert(module_flags(m) == f);
                assert(b =~= seq![b[0]] + region + after_name);
                if f & 0x01 == 0x01 {
                    assert(after_name =~= seq![
                        after_name[0],
                        after_name[1],
                        after_name[2],
                        after_name[3],
                    ] + r1);
                } else {
                    assert(after_name == r1);
                }
                assert(r1 == enc_methods(ms2) + rest);
                assert(enc_methods(m.methods) == enc_methods(ms2));
                assert(enc_module(m) + rest =~= b);
            },
            Err(_) => {},
        }
    }
}

#[verifier::rlimit(100)]
pub proof fn lemma_enc_dec_modules(b: Seq<u8>, k: nat)
    ensures
        match spec_dec_modules(b, k) {
            Ok((ms, rest)) => ms.len() == k && (forall|i: int|
                0 <= i < ms.len() ==> canonical_module(#[trigger] ms[i].1) && ms[i].0
                    == ms[i].1.name) && enc_modules(ms) + rest == b,
            Err(_) => true,
        },
    decreases k,
{
    if k > 0 {
        match spec_dec_module(b) {
            Ok((m, r1)) => {
                lemma_enc_dec_module(b);
                lemma_enc_dec_modules(r1, (k - 1) as nat);
                match spec_dec_modules(r1, (k - 1) as nat) {
                    Ok((ms2, rest)) => {
                        let ms = seq![(m.name, m)] + ms2;
                        lemma_enc_modules_concat(seq![(m.name, m)], ms2);
                        assert(seq![(m.name, m)].drop_first() =~= Seq::<
                            (Seq<char>, ModuleView),
                        >::empty());
                        assert(enc_modules(seq![(m.name, m)]) == enc_module(m) + enc_modules(
                            seq![(m.name, m)].drop_first(),
                        ));
                        assert(enc_modules(seq![(m.name, m)]) =~= enc_module(m));
                        assert(enc_modules(ms) + rest =~= enc_module(m) + (enc_modules(ms2)
                            + rest));
                        assert(enc_modules(ms) + rest =~= b);
                    },
                    Err(_) => {},
                }
            },
            Err(_) => {},
        }
    }
}

/// Round trip, second direction: every byte string that decodes is the
/// encoding of the canonical payload it decodes to.
#[verifier::rlimit(100)]
pub proof fn lemma_round_trip_decode_encode(b: Seq<u8>)
    ensures
        match spec_dec_nut(b) {
            Ok(v) => canonical_payload(v) && enc_nut(v) == b,
            Err(_) => true,
        },
{
    if spec_dec_nut(b) is Ok {
        let p = b.skip(2);
        let k = rev8(p[0]) as nat + 1;
        lemma_enc_dec_modules(p.skip(1), k);
        match spec_dec_modules(p.skip(1), k) {
            Ok((ms, rest)) => {
                assert(rest.len() == 0);
                let v = V0View { modules: ms };
                assert(1 <= ms.len() <= 256);
                assert((ms.len() - 1) as u8 == rev8(p[0]));
                lemma_rev8_involution(p[0]);
                assert(rev8((ms.len() - 1) as u8) == p[0]);
                assert(enc_modules(ms) + rest =~= enc_modules(ms));
                assert(enc_payload(v) =~= p);
                assert(enc_nut(v) =~= b);
            },
            Err(_) => {},
        }
    }
}

// ---------------------------------------------------------------------------
// Version gate
// ---------------------------------------------------------------------------
/// Bytes whose first two bytes are not both zero never decode: the envelope
/// reports an unexpected version, a directly decoded payload expects zero.
pub proof fn lemma_version_gate(b: Seq<u8>)
    requires
        b.len() >= 2,
        b[0] != 0 || b[1] != 0,
    ensures
        spec_dec_nut(b) == Err::<V0View, DecodeError>(DecodeError::UnexpectedVersion),
        spec_dec_v0(b) == Err::<V0View, DecodeError>(DecodeError::ExpectedVersionZero),
{
}

// ---------------------------------------------------------------------------
// Constraints length byte
// ---------------------------------------------------------------------------
/// The stored length byte is the bit-reversal of `length - 1`, and reversing
/// it and adding one recovers every length from 1 to 256 exactly.
pub proof fn lemma_constraints_length_byte(len: u16)
    requires
        1 <= len <= 256,
    ensures
        rev8(rev8((len - 1) as u8)) as u16 + 1 == len,
{
    lemma_rev8_involution((len - 1) as u8);
}

// ---------------------------------------------------------------------------
// Wildcard priority
// ---------------------------------------------------------------------------
/// A registered, exactly-named entry always wins over a wildcard entry: when
/// some entry is registered under the looked-up name, the lookup resolves to
/// an entry registered under exactly that name, never to a wildcard one.
proof fn lemma_lookup_first_registered<T>(entries: Seq<(Seq<char>, T)>, name: Seq<char>)
    requires
        exists|i: int| 0 <= i < entries.len() && #[trigger] entries[i].0 == name,
    ensures
        exists|i: int|
            0 <= i < entries.len() && #[trigger] entries[i].0 == name && lookup_first(
                entries,
                name,
            ) == Some(entries[i].1),
    decreases entries.len(),
{
    if entries[0].0 == name {
        assert(0 <= 0 < entries.len() && entries[0].0 == name && lookup_first(entries, name)
            == Some(entries[0].1));
    } else {
        let tail = entries.drop_first();
        let w = choose|i: int| 0 <= i < entries.len() && #[trigger] entries[i].0 == name;
        assert(tail[w - 1].0 == name);
        lemma_lookup_first_registered(tail, name);
        let j = choose|i: int|
            0 <= i < tail.len() && #[trigger] tail[i].0 == name && lookup_first(tail, name)
                == Some(tail[i].1);
        assert(entries[j + 1].0 == name && lookup_first(entries, name) == Some(
            entries[j + 1].1,
        ));
    }
}

pub proof fn lemma_registered_over_wildcard<T>(entries: Seq<(Seq<char>, T)>, name: Seq<char>)
    requires
        exists|i: int| 0 <= i < entries.len() && #[trigger] entries[i].0 == name,
    ensures
        exists|i: int|
            0 <= i < entries.len() && #[trigger] entries[i].0 == name && lookup(entries, name)
                == Some(entries[i].1),
{
    lemma_lookup_first_registered(entries, name);
    let j = choose|i: int|
        0 <= i < entries.len() && #[trigger] entries[i].0 == name && lookup_first(entries, name)
            == Some(entries[i].1);
    assert(0 <= j < entries.len() && entries[j].0 == name && lookup(entries, name) == Some(
        entries[j].1,
    ));
}

} // verus!
