//! The wire format, as mathematics: what encoding writes, byte for byte, and
//! what decoding accepts. The executable codec is verified against these
//! functions, and the round-trip laws are proved of them.
//!
//! Layout, in order: a little-endian `u16` version (zero), one bit-reversed
//! `count - 1` byte for the module collection, then each module as a header
//! byte (bit-reversed `count * 2 + cooldown-present`), a 32-byte null-padded
//! name, an optional four-byte cooldown, and its methods, each a header byte
//! (bit-reversed `cooldown-present + constraints-present * 2`), a name, an
//! optional cooldown, and an optional constraints blob prefixed by one
//! bit-reversed `length - 1` byte.

use vstd::prelude::*;
use vstd::utf8::{decode_utf8, encode_utf8, valid_utf8};
use crate::bits::{cooldown_bytes, cooldown_value, rev8};
use crate::errors::DecodeError;
use crate::method::MethodView;
use crate::module::ModuleView;
use crate::v0::V0View;

verus! {

// ---------------------------------------------------------------------------
// Names
// ---------------------------------------------------------------------------
/// A name's UTF-8 bytes, left-justified and null-padded to 32 bytes.
pub open spec fn pad_name(b: Seq<u8>) -> Seq<u8> {
    b + Seq::new((32 - b.len()) as nat, |i: int| 0u8)
}

/// The bytes of a name region with its trailing null padding removed.
pub open spec fn strip_trailing_zeros(b: Seq<u8>) -> Seq<u8>
    decreases b.len(),
{
    if b.len() > 0 && b.last() == 0 {
        strip_trailing_zeros(b.drop_last())
    } else {
        b
    }
}

/// What a 32-byte name region decodes to: the region with its trailing null
/// bytes stripped, read as UTF-8.
pub open spec fn spec_dec_name(region: Seq<u8>) -> Result<Seq<char>, DecodeError> {
    let stripped = strip_trailing_zeros(region);
    if valid_utf8(stripped) {
        Ok(decode_utf8(stripped))
    } else {
        Err(DecodeError::InvalidName)
    }
}

// ---------------------------------------------------------------------------
// Encoding
// ---------------------------------------------------------------------------
/// The presence-flag byte of a method, before bit reversal.
pub open spec fn method_flags(m: MethodView) -> u8 {
    (if m.block_cooldown is Some {
        0x01u8
    } else {
        0u8
    }) | (if m.constraints is Some {
        0x02u8
    } else {
        0u8
    })
}

/// The header byte of a module, before bit reversal: the method count shifted
/// once left, with the cooldown presence flag in the low bit.
pub open spec fn module_flags(m: ModuleView) -> u8 {
    ((m.methods.len() as u8) << 1) | (if m.block_cooldown is Some {
        0x01u8
    } else {
        0u8
    })
}

/// The bytes of an optional cooldown: four bytes when present, none when not.
pub open spec fn enc_opt_cooldown(c: Option<u32>) -> Seq<u8> {
    match c {
        Some(v) => cooldown_bytes(v),
        None => seq![],
    }
}

/// The bytes of an optional constraints blob: one bit-reversed `length - 1`
/// byte followed by the blob itself, or nothing.
pub open spec fn enc_opt_constraints(c: Option<Seq<u8>>) -> Seq<u8> {
    match c {
        Some(blob) => seq![rev8((blob.len() - 1) as u8)] + blob,
        None => seq![],
    }
}

/// The bytes of one method record.
pub open spec fn enc_method(m: MethodView) -> Seq<u8> {
    seq![rev8(method_flags(m))] + pad_name(encode_utf8(m.name)) + enc_opt_cooldown(
        m.block_cooldown,
    ) + enc_opt_constraints(m.constraints)
}

/// The bytes of a method collection, in insertion order.
pub open spec fn enc_methods(ms: Seq<(Seq<char>, MethodView)>) -> Seq<u8>
    decreases ms.len(),
{
    if ms.len() == 0 {
        seq![]
    } else {
        enc_method(ms[0].1) + enc_methods(ms.drop_first())
    }
}

/// The bytes of one module record, its methods nested right behind it.
pub open spec fn enc_module(m: ModuleView) -> Seq<u8> {
    seq![rev8(module_flags(m))] + pad_name(encode_utf8(m.name)) + enc_opt_cooldown(
        m.block_cooldown,
    ) + enc_methods(m.methods)
}

/// The bytes of a module collection, in insertion order.
pub open spec fn enc_modules(ms: Seq<(Seq<char>, ModuleView)>) -> Seq<u8>
    decreases ms.len(),
{
    if ms.len() == 0 {
        seq![]
    } else {
        enc_module(ms[0].1) + enc_modules(ms.drop_first())
    }
}

/// The bytes of a version-0 payload, without the version prefix: a
/// bit-reversed `count - 1` byte, then the modules.
pub open spec fn enc_payload(v: V0View) -> Seq<u8> {
    seq![rev8((v.modules.len() - 1) as u8)] + enc_modules(v.modules)
}

/// The bytes of a whole token: the two zero version bytes, then the payload.
pub open spec fn enc_nut(v: V0View) -> Seq<u8> {
    seq![0u8, 0u8] + enc_payload(v)
}

// ---------------------------------------------------------------------------
// What can be encoded at all
// ---------------------------------------------------------------------------
/// A name fits its fixed-width 32-byte field.
pub open spec fn encodable_name(name: Seq<char>) -> bool {
    encode_utf8(name).len() <= 32
}

/// A method record fits the format: its name fits, and a constraints blob,
/// when present, holds between 1 and 256 bytes.
pub open spec fn encodable_method(m: MethodView) -> bool {
    &&& encodable_name(m.name)
    &&& (m.constraints matches Some(b) ==> 1 <= b.len() <= 256)
}

/// A module record fits the format: its name fits, it holds at most 127
/// methods, and each method fits.
pub open spec fn encodable_module(m: ModuleView) -> bool {
    &&& encodable_name(m.name)
    &&& m.methods.len() <= 127
    &&& forall|i: int| 0 <= i < m.methods.len() ==> encodable_method(#[trigger] m.methods[i].1)
}

/// A payload fits the format: between 1 and 256 modules, each fitting.
pub open spec fn encodable_payload(v: V0View) -> bool {
    &&& 1 <= v.modules.len() <= 256
    &&& forall|i: int| 0 <= i < v.modules.len() ==> encodable_module(#[trigger] v.modules[i].1)
}

// ---------------------------------------------------------------------------
// What survives a round trip unchanged
// ---------------------------------------------------------------------------
/// A name whose padded field decodes back to itself: it fits, and its last
/// byte is not null (null padding is stripped on decode).
pub open spec fn canonical_name(name: Seq<char>) -> bool {
    &&& encodable_name(name)
    &&& (encode_utf8(name).len() > 0 ==> encode_utf8(name).last() != 0)
}

pub open spec fn canonical_method(m: MethodView) -> bool {
    &&& canonical_name(m.name)
    &&& encodable_method(m)
}

/// A canonical module: every collection entry is keyed by its record's own
/// name, since only the record's name reaches the wire.
pub open spec fn canonical_module(m: ModuleView) -> bool {
    &&& canonical_name(m.name)
    &&& encodable_module(m)
    &&& forall|i: int| 0 <= i < m.methods.len() ==> #[trigger] m.methods[i].0 == m.methods[i].1.name
        && canonical_method(m.methods[i].1)
}

pub open spec fn canonical_payload(v: V0View) -> bool {
    &&& encodable_payload(v)
    &&& forall|i: int| 0 <= i < v.modules.len() ==> #[trigger] v.modules[i].0 == v.modules[i].1.name
        && canonical_module(v.modules[i].1)
}

// ---------------------------------------------------------------------------
// Decoding
// ---------------------------------------------------------------------------
/// What one method record decodes to, with the bytes that follow it.
pub open spec fn spec_dec_method(b: Seq<u8>) -> Result<(MethodView, Seq<u8>), DecodeError> {
    if b.len() < 33 {
        Err(DecodeError::NotEnoughData)
    } else {
        let flags = rev8(b[0]);
        if flags & 0xFC != 0 {
            Err(DecodeError::InvalidFlags)
        } else {
            match spec_dec_name(b.subrange(1, 33)) {
                Err(e) => Err(e),
                Ok(name) => {
                    let after_name = b.skip(33);
                    if flags & 0x01 == 0x01 && after_name.len() < 4 {
                        Err(DecodeError::NotEnoughData)
                    } else {
                        let cooldown = if flags & 0x01 == 0x01 {
                            Some(
                                cooldown_value(
                                    after_name[0],
                                    after_name[1],
                                    after_name[2],
                                    after_name[3],
                                ),
                            )
                        } else {
                            None
                        };
                        let rest = if flags & 0x01 == 0x01 {
                            after_name.skip(4)
                        } else {
                            after_name
                        };
                        if flags & 0x02 != 0x02 {
                            Ok(
                                (
                                    MethodView { name, block_cooldown: cooldown, constraints: None },
                                    rest,
                                ),
                            )
                        } else if rest.len() < 1 {
                            Err(DecodeError::NotEnoughData)
                        } else {
                            let len = rev8(rest[0]) as int + 1;
                            if rest.len() < 1 + len {
                                Err(DecodeError::InvalidConstraints)
                            } else {
                                Ok(
                                    (
                                        MethodView {
                                            name,
                                            block_cooldown: cooldown,
                                            constraints: Some(rest.subrange(1, 1 + len)),
                                        },
                                        rest.skip(1 + len),
                                    ),
                                )
                            }
                        }
                    }
                },
            }
        }
    }
}

/// What `k` method records decode to, keyed by their own names.
pub open spec fn spec_dec_methods(b: Seq<u8>, k: nat) -> Result<
    (Seq<(Seq<char>, MethodView)>, Seq<u8>),
    DecodeError,
>
    decreases k,
{
    if k == 0 {
        Ok((seq![], b))
    } else {
        match spec_dec_method(b) {
            Err(e) => Err(e),
            Ok((m, rest)) => match spec_dec_methods(rest, (k - 1) as nat) {
                Err(e) => Err(e),
                Ok((ms, rest2)) => Ok((seq![(m.name, m)] + ms, rest2)),
            },
        }
    }
}

/// What one module record decodes to, with the bytes that follow it.
pub open spec fn spec_dec_module(b: Seq<u8>) -> Result<(ModuleView, Seq<u8>), DecodeError> {
    if b.len() < 33 {
        Err(DecodeError::NotEnoughData)
    } else {
        let flags = rev8(b[0]);
        match spec_dec_name(b.subrange(1, 33)) {
            Err(e) => Err(e),
            Ok(name) => {
                let after_name = b.skip(33);
                if flags & 0x01 == 0x01 && after_name.len() < 4 {
                    Err(DecodeError::NotEnoughData)
                } else {
                    let cooldown = if flags & 0x01 == 0x01 {
                        Some(
                            cooldown_value(
                                after_name[0],
                                after_name[1],
                                after_name[2],
                                after_name[3],
                            ),
                        )
                    } else {
                        None
                    };
                    let rest = if flags & 0x01 == 0x01 {
                        after_name.skip(4)
                    } else {
                        after_name
                    };
                    match spec_dec_methods(rest, (flags >> 1) as nat) {
                        Err(e) => Err(e),
                        Ok((methods, rest2)) => Ok(
                            (ModuleView { name, block_cooldown: cooldown, methods }, rest2),
                        ),
                    }
                }
            },
        }
    }
}

/// What `k` module records decode to, keyed by their own names.
pub open spec fn spec_dec_modules(b: Seq<u8>, k: nat) -> Result<
    (Seq<(Seq<char>, ModuleView)>, Seq<u8>),
    DecodeError,
>
    decreases k,
{
    if k == 0 {
        Ok((seq![], b))
    } else {
        match spec_dec_module(b) {
            Err(e) => Err(e),
            Ok((m, rest)) => match spec_dec_modules(rest, (k - 1) as nat) {
                Err(e) => Err(e),
                Ok((ms, rest2)) => Ok((seq![(m.name, m)] + ms, rest2)),
            },
        }
    }
}

/// What a version-0 payload decodes to, the version prefix already consumed:
/// a whole module collection, with nothing left over.
pub open spec fn spec_dec_payload(b: Seq<u8>) -> Result<V0View, DecodeError> {
    if b.len() < 1 {
        Err(DecodeError::NotEnoughData)
    } else {
        match spec_dec_modules(b.skip(1), rev8(b[0]) as nat + 1) {
            Err(e) => Err(e),
            Ok((modules, rest)) => if rest.len() == 0 {
                Ok(V0View { modules })
            } else {
                Err(DecodeError::TrailingData)
            },
        }
    }
}

/// What a whole token decodes to: the two version bytes must read zero.
pub open spec fn spec_dec_nut(b: Seq<u8>) -> Result<V0View, DecodeError> {
    if b.len() < 2 {
        Err(DecodeError::NotEnoughData)
    } else if b[0] != 0 || b[1] != 0 {
        Err(DecodeError::UnexpectedVersion)
    } else {
        spec_dec_payload(b.skip(2))
    }
}

/// What a version-0 payload decoded directly (version prefix included) must
/// hold: the same as the envelope, under its own version error.
pub open spec fn spec_dec_v0(b: Seq<u8>) -> Result<V0View, DecodeError> {
    if b.len() < 2 {
        Err(DecodeError::NotEnoughData)
    } else if b[0] != 0 || b[1] != 0 {
        Err(DecodeError::ExpectedVersionZero)
    } else {
        spec_dec_payload(b.skip(2))
    }
}

// ---------------------------------------------------------------------------
// Facts about the name padding
// ---------------------------------------------------------------------------
/// Stripping trailing zeros yields the prefix that ends at `end`, when all
/// bytes from `end` on are zero and the byte before `end` is not.
pub proof fn lemma_strip_prefix(b: Seq<u8>, end: int)
    requires
        0 <= end <= b.len(),
        forall|i: int| end <= i < b.len() ==> b[i] == 0,
        end > 0 ==> b[end - 1] != 0,
    ensures
        strip_trailing_zeros(b) == b.subrange(0, end),
    decreases b.len(),
{
    if b.len() == end {
        assert(b.subrange(0, end) =~= b);
    } else {
        assert(b.last() == 0);
        let d = b.drop_last();
        assert(d =~= b.subrange(0, b.len() - 1));
        lemma_strip_prefix(d, end);
        assert(d.subrange(0, end) =~= b.subrange(0, end));
    }
}

/// What stripping trailing zeros leaves: a prefix, only zeros behind it, and
/// no zero at its end.
pub proof fn lemma_strip_properties(b: Seq<u8>)
    ensures
        strip_trailing_zeros(b).len() <= b.len(),
        strip_trailing_zeros(b) == b.subrange(0, strip_trailing_zeros(b).len() as int),
        forall|i: int| strip_trailing_zeros(b).len() <= i < b.len() ==> b[i] == 0,
        strip_trailing_zeros(b).len() > 0 ==> strip_trailing_zeros(b).last() != 0,
    decreases b.len(),
{
    if b.len() > 0 && b.last() == 0 {
        let d = b.drop_last();
        lemma_strip_properties(d);
        assert(d =~= b.subrange(0, b.len() - 1));
        let l = strip_trailing_zeros(b).len() as int;
        assert(d.subrange(0, l) =~= b.subrange(0, l));
        assert forall|i: int| l <= i < b.len() implies b[i] == 0 by {
            if i < b.len() - 1 {
                assert(b[i] == d[i]);
            } else {
                assert(b[i] == b.last());
            }
        }
    }
}

/// Padding a name that ends in no null byte and stripping the padding again
/// gives the name back.
pub proof fn lemma_strip_pad(nb: Seq<u8>)
    requires
        nb.len() <= 32,
        nb.len() > 0 ==> nb.last() != 0,
    ensures
        strip_trailing_zeros(pad_name(nb)) == nb,
{
    lemma_strip_prefix(pad_name(nb), nb.len() as int);
    assert(pad_name(nb).subrange(0, nb.len() as int) =~= nb);
}

/// Re-padding whatever stripping a 32-byte region left gives the region back.
pub proof fn lemma_pad_strip(region: Seq<u8>)
    requires
        region.len() == 32,
    ensures
        strip_trailing_zeros(region).len() <= 32,
        pad_name(strip_trailing_zeros(region)) == region,
        strip_trailing_zeros(region).len() > 0 ==> strip_trailing_zeros(region).last() != 0,
{
    lemma_strip_properties(region);
    assert(pad_name(strip_trailing_zeros(region)) =~= region);
}

} // verus!
