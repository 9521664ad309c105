//! The versioned envelope: a tagged union over wire-format versions. Only
//! version 0 exists today; the envelope owns the two-byte version prefix and
//! dispatches encoding, decoding and validation to the active version.

use vstd::prelude::*;
use vstd::slice::slice_subrange;
use crate::errors::DecodeError;
use crate::interpreter::{ConstraintsInterpreter, TypedValue};
use crate::v0::{spec_validate_module, TRNNutV0, V0View};
use crate::validation::{RuntimeDomain, ValidationErr};
use crate::wire::{enc_nut, encodable_payload, spec_dec_nut};

verus! {

/// A versioned permission token.
#[derive(Debug, PartialEq, Eq)]
pub enum TRNNut {
    V0(TRNNutV0),
}

/// The mathematical value of a [`TRNNut`].
pub enum TRNNutView {
    V0(V0View),
}

impl View for TRNNut {
    type V = TRNNutView;

    open spec fn view(&self) -> TRNNutView {
        match self {
            TRNNut::V0(v) => TRNNutView::V0(v@),
        }
    }
}

/// A token fits the wire format when its active version's payload does.
pub open spec fn encodable_nut(n: TRNNutView) -> bool {
    match n {
        TRNNutView::V0(v) => encodable_payload(v),
    }
}

/// The wire bytes of a token: those of its active version's payload.
pub open spec fn enc_nut_view(n: TRNNutView) -> Seq<u8> {
    match n {
        TRNNutView::V0(v) => enc_nut(v),
    }
}

impl TRNNut {
    /// Appends the token's wire bytes to a buffer.
    pub fn encode_to(&self, buf: &mut Vec<u8>)
        requires
            encodable_nut(self@),
        ensures
            final(buf)@ == old(buf)@ + enc_nut_view(self@),
    {
        match self {
            TRNNut::V0(inner) => inner.encode_to(buf),
        }
    }

    /// The token's wire bytes.
    pub fn encode(&self) -> (r: Vec<u8>)
        requires
            encodable_nut(self@),
        ensures
            r@ == enc_nut_view(self@),
    {
        match self {
            TRNNut::V0(inner) => inner.encode(),
        }
    }

    /// Decodes a token: reads the two-byte little-endian version, rejects any
    /// version but zero, and decodes the version-0 payload behind it.
    pub fn decode(bytes: &[u8]) -> (r: Result<TRNNut, DecodeError>)
        ensures
            match r {
                Ok(nut) => nut@ matches TRNNutView::V0(v) && spec_dec_nut(bytes@) == Ok::<
                    V0View,
                    DecodeError,
                >(v),
                Err(e) => spec_dec_nut(bytes@) == Err::<V0View, DecodeError>(e),
            },
    {
        if bytes.len() < 2 {
            return Err(DecodeError::NotEnoughData);
        }
        if bytes[0] != 0 || bytes[1] != 0 {
            return Err(DecodeError::UnexpectedVersion);
        }
        let rest = slice_subrange(bytes, 2, bytes.len());
        proof {
            assert(rest@ =~= bytes@.skip(2));
        }
        match TRNNutV0::partial_decode(rest) {
            Ok(v0) => Ok(TRNNut::V0(v0)),
            Err(e) => Err(e),
        }
    }

    /// Validates a runtime call by dispatching to the active version.
    pub fn validate_runtime_call<I: ConstraintsInterpreter>(
        &self,
        module_name: &str,
        method_name: &str,
        args: &[TypedValue],
        interpreter: &I,
    ) -> (r: Result<(), ValidationErr<RuntimeDomain>>)
        ensures
            match self@ {
                TRNNutView::V0(v) => spec_validate_module(v, module_name@, method_name@, r),
            },
    {
        match self {
            TRNNut::V0(inner) => inner.validate_module(
                module_name,
                method_name,
                args,
                interpreter,
            ),
        }
    }
}

impl TRNNutV0 {
    /// Projects an envelope onto its version-0 payload. With version 0 the
    /// only live version, this never fails today.
    pub fn try_from(nut: TRNNut) -> (r: Result<TRNNutV0, DecodeError>)
        ensures
            r matches Ok(v0) && (match nut@ {
                TRNNutView::V0(v) => v0@ == v,
            }),
    {
        match nut {
            TRNNut::V0(inner) => Ok(inner),
        }
    }
}

} // verus!
