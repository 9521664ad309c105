//! The executable codec: encoding a payload into its wire bytes and decoding
//! wire bytes back, each verified against the wire-format model in [`crate::wire`].

use vstd::prelude::*;
use vstd::slice::{slice_subrange, slice_to_vec};
use vstd::utf8::{decode_utf8, encode_utf8, valid_utf8};
use crate::bits::{read_cooldown, rev8, swap_bits, write_cooldown};
use crate::errors::DecodeError;
use crate::method::{Method, MethodView};
use crate::module::{methods_view, Module, ModuleView};
use crate::v0::{modules_view, TRNNutV0, V0View};
use crate::wire::{
    enc_method, enc_methods, enc_module, enc_modules, enc_nut, enc_opt_constraints,
    enc_opt_cooldown, encodable_method, encodable_module, encodable_name,
    encodable_payload, lemma_strip_prefix, method_flags, module_flags, pad_name, spec_dec_method,
    spec_dec_methods, spec_dec_module, spec_dec_modules, spec_dec_name, spec_dec_payload,
    spec_dec_v0,
};

verus! {

// ---------------------------------------------------------------------------
// Concatenation facts about the spec encoders
// ---------------------------------------------------------------------------
pub proof fn lemma_enc_methods_concat(a: Seq<(Seq<char>, MethodView)>, b: Seq<(Seq<char>, MethodView)>)
    ensures
        enc_methods(a + b) == enc_methods(a) + enc_methods(b),
    decreases a.len(),
{
    if a.len() == 0 {
        assert(a + b =~= b);
        assert(enc_methods(a) + enc_methods(b) =~= enc_methods(b));
    } else {
        assert((a + b).len() > 0);
        assert((a + b)[0] == a[0]);
        assert((a + b).drop_first() =~= a.drop_first() + b);
        lemma_enc_methods_concat(a.drop_first(), b);
        assert(enc_method(a[0].1) + (enc_methods(a.drop_first()) + enc_methods(b)) =~= (enc_method(
            a[0].1,
        ) + enc_methods(a.drop_first())) + enc_methods(b));
    }
}

pub proof fn lemma_enc_methods_take_step(ms: Seq<(Seq<char>, MethodView)>, k: int)
    requires
        0 <= k < ms.len(),
    ensures
        enc_methods(ms.take(k + 1)) == enc_methods(ms.take(k)) + enc_method(ms[k].1),
{
    assert(ms.take(k + 1) =~= ms.take(k) + seq![ms[k]]);
    lemma_enc_methods_concat(ms.take(k), seq![ms[k]]);
    assert(seq![ms[k]].drop_first() =~= Seq::<(Seq<char>, MethodView)>::empty());
    assert(seq![ms[k]].len() == 1 && seq![ms[k]][0] == ms[k]);
    assert(enc_methods(seq![ms[k]]) == enc_method(ms[k].1) + enc_methods(
        seq![ms[k]].drop_first(),
    ));
    assert(enc_methods(Seq::<(Seq<char>, MethodView)>::empty()) =~= Seq::<u8>::empty());
    assert(enc_method(ms[k].1) + Seq::<u8>::empty() =~= enc_method(ms[k].1));
}

pub proof fn lemma_enc_modules_concat(a: Seq<(Seq<char>, ModuleView)>, b: Seq<(Seq<char>, ModuleView)>)
    ensures
        enc_modules(a + b) == enc_modules(a) + enc_modules(b),
    decreases a.len(),
{
    if a.len() == 0 {
        assert(a + b =~= b);
        assert(enc_modules(a) + enc_modules(b) =~= enc_modules(b));
    } else {
        assert((a + b).len() > 0);
        assert((a + b)[0] == a[0]);
        assert((a + b).drop_first() =~= a.drop_first() + b);
        lemma_enc_modules_concat(a.drop_first(), b);
        assert(enc_module(a[0].1) + (enc_modules(a.drop_first()) + enc_modules(b)) =~= (enc_module(
            a[0].1,
        ) + enc_modules(a.drop_first())) + enc_modules(b));
    }
}

pub proof fn lemma_enc_modules_take_step(ms: Seq<(Seq<char>, ModuleView)>, k: int)
    requires
        0 <= k < ms.len(),
    ensures
        enc_modules(ms.take(k + 1)) == enc_modules(ms.take(k)) + enc_module(ms[k].1),
{
    assert(ms.take(k + 1) =~= ms.take(k) + seq![ms[k]]);
    lemma_enc_modules_concat(ms.take(k), seq![ms[k]]);
    assert(seq![ms[k]].drop_first() =~= Seq::<(Seq<char>, ModuleView)>::empty());
    assert(seq![ms[k]].len() == 1 && seq![ms[k]][0] == ms[k]);
    assert(enc_modules(seq![ms[k]]) == enc_module(ms[k].1) + enc_modules(
        seq![ms[k]].drop_first(),
    ));
    assert(enc_modules(Seq::<(Seq<char>, ModuleView)>::empty()) =~= Seq::<u8>::empty());
    assert(enc_module(ms[k].1) + Seq::<u8>::empty() =~= enc_module(ms[k].1));
}

// ---------------------------------------------------------------------------
// Encoding
// ---------------------------------------------------------------------------
/// Appends a name as its fixed-width 32-byte field: the UTF-8 bytes, then
/// null padding.
fn write_name(buf: &mut Vec<u8>, name: &str)
    requires
        encodable_name(name@),
    ensures
        final(buf)@ == old(buf)@ + pad_name(encode_utf8(name@)),
{
    let nb = name.as_bytes();
    let n = nb.len();
    proof {
        assert(old(buf)@ + nb@.take(0) =~= old(buf)@);
    }
    let mut i: usize = 0;
    while i < n
        invariant
            i <= n,
            n == nb@.len(),
            n <= 32,
            nb@ == encode_utf8(name@),
            buf@ == old(buf)@ + nb@.take(i as int),
        decreases n - i,
    {
        buf.push(nb[i]);
        proof {
            assert(old(buf)@ + nb@.take(i + 1) =~= (old(buf)@ + nb@.take(i as int)).push(
                nb@[i as int],
            ));
        }
        i += 1;
    }
    proof {
        assert(nb@.take(n as int) =~= nb@);
    }
    let mut j: usize = n;
    while j < 32
        invariant
            n <= j <= 32,
            n == nb@.len(),
            nb@ == encode_utf8(name@),
            buf@ == old(buf)@ + nb@ + Seq::new((j - n) as nat, |k: int| 0u8),
        decreases 32 - j,
    {
        buf.push(0);
        proof {
            assert(old(buf)@ + nb@ + Seq::new((j + 1 - n) as nat, |k: int| 0u8) =~= (old(buf)@
                + nb@ + Seq::new((j - n) as nat, |k: int| 0u8)).push(0u8));
        }
        j += 1;
    }
    proof {
        assert(buf@ =~= old(buf)@ + pad_name(encode_utf8(name@)));
    }
}

impl Method {
    /// Appends this method's wire bytes to a buffer.
    pub fn encode_to(&self, buf: &mut Vec<u8>)
        requires
            encodable_method(self@),
        ensures
            final(buf)@ == old(buf)@ + enc_method(self@),
    {
        let flags: u8 = (if self.block_cooldown.is_some() {
            1u8
        } else {
            0u8
        }) | (if self.constraints.is_some() {
            2u8
        } else {
            0u8
        });
        proof {
            assert(flags == method_flags(self@));
        }
        buf.push(swap_bits(flags));
        write_name(buf, self.name.as_str());
        let ghost mid = old(buf)@ + seq![rev8(method_flags(self@))] + pad_name(
            encode_utf8(self@.name),
        );
        proof {
            assert(buf@ =~= mid);
        }
        if let Some(c) = &self.block_cooldown {
            write_cooldown(buf, *c);
        }
        proof {
            assert(buf@ =~= mid + enc_opt_cooldown(self@.block_cooldown));
        }
        if let Some(cb) = &self.constraints {
            buf.push(swap_bits((cb.len() - 1) as u8));
            let ghost pre = buf@;
            let n = cb.len();
            let mut i: usize = 0;
            proof {
                assert(pre + cb@.take(0) =~= pre);
            }
            while i < n
                invariant
                    i <= n,
                    n == cb@.len(),
                    buf@ == pre + cb@.take(i as int),
                decreases n - i,
            {
                buf.push(cb[i]);
                proof {
                    assert(pre + cb@.take(i + 1) =~= (pre + cb@.take(i as int)).push(
                        cb@[i as int],
                    ));
                }
                i += 1;
            }
            proof {
                assert(cb@.take(n as int) =~= cb@);
            }
        }
        proof {
            assert(buf@ =~= mid + enc_opt_cooldown(self@.block_cooldown) + enc_opt_constraints(
                self@.constraints,
            ));
            assert(buf@ =~= old(buf)@ + enc_method(self@));
        }
    }
}

impl Module {
    /// Appends this module's wire bytes, its methods nested behind it.
    pub fn encode_to(&self, buf: &mut Vec<u8>)
        requires
            encodable_module(self@),
        ensures
            final(buf)@ == old(buf)@ + enc_module(self@),
    {
        let flags: u8 = ((self.methods.len() as u8) << 1) | (if self.block_cooldown.is_some() {
            1u8
        } else {
            0u8
        });
        proof {
            assert(self@.methods.len() == self.methods@.len());
            assert(flags == module_flags(self@));
        }
        buf.push(swap_bits(flags));
        write_name(buf, self.name.as_str());
        if let Some(c) = &self.block_cooldown {
            write_cooldown(buf, *c);
        }
        let ghost mid = old(buf)@ + seq![rev8(module_flags(self@))] + pad_name(
            encode_utf8(self@.name),
        ) + enc_opt_cooldown(self@.block_cooldown);
        proof {
            assert(buf@ =~= mid);
            assert(mid + enc_methods(self@.methods.take(0)) =~= mid);
        }
        let n = self.methods.len();
        let mut i: usize = 0;
        while i < n
            invariant
                i <= n,
                n == self.methods@.len(),
                encodable_module(self@),
                n == self@.methods.len(),
                buf@ == mid + enc_methods(self@.methods.take(i as int)),
            decreases n - i,
        {
            let m = &self.methods[i].1;
            proof {
                assert(m@ == self@.methods[i as int].1);
            }
            m.encode_to(buf);
            proof {
                lemma_enc_methods_take_step(self@.methods, i as int);
            }
            i += 1;
        }
        proof {
            assert(self@.methods.take(n as int) =~= self@.methods);
            assert(buf@ =~= old(buf)@ + enc_module(self@));
        }
    }
}

impl TRNNutV0 {
    /// Appends the whole token's wire bytes: the two version bytes, the
    /// module count byte, then the modules.
    pub fn encode_to(&self, buf: &mut Vec<u8>)
        requires
            encodable_payload(self@),
        ensures
            final(buf)@ == old(buf)@ + enc_nut(self@),
    {
        buf.push(0);
        buf.push(0);
        proof {
            assert(self@.modules.len() == self.modules@.len());
        }
        buf.push(swap_bits((self.modules.len() - 1) as u8));
        let ghost mid = old(buf)@ + seq![0u8, 0u8] + seq![
            rev8((self@.modules.len() - 1) as u8),
        ];
        proof {
            assert(buf@ =~= mid);
            assert(mid + enc_modules(self@.modules.take(0)) =~= mid);
        }
        let n = self.modules.len();
        let mut i: usize = 0;
        while i < n
            invariant
                i <= n,
                n == self.modules@.len(),
                encodable_payload(self@),
                n == self@.modules.len(),
                buf@ == mid + enc_modules(self@.modules.take(i as int)),
            decreases n - i,
        {
            let m = &self.modules[i].1;
            proof {
                assert(m@ == self@.modules[i as int].1);
            }
            m.encode_to(buf);
            proof {
                lemma_enc_modules_take_step(self@.modules, i as int);
            }
            i += 1;
        }
        proof {
            assert(self@.modules.take(n as int) =~= self@.modules);
            assert(buf@ =~= old(buf)@ + enc_nut(self@));
        }
    }

    /// The whole token's wire bytes.
    pub fn encode(&self) -> (r: Vec<u8>)
        requires
            encodable_payload(self@),
        ensures
            r@ == enc_nut(self@),
    {
        let mut buf: Vec<u8> = Vec::new();
        self.encode_to(&mut buf);
        proof {
            assert(Seq::<u8>::empty() + enc_nut(self@) =~= enc_nut(self@));
        }
        buf
    }
}

// ---------------------------------------------------------------------------
// Decoding
// ---------------------------------------------------------------------------
/// Relies on `String::from_utf8`: it returns the string whose UTF-8 encoding
/// is the given bytes, and fails exactly on bytes that are not UTF-8.
#[verifier::external_body]
fn string_from_utf8(bytes: Vec<u8>) -> (r: Option<String>)
    ensures
        match r {
            Some(s) => valid_utf8(bytes@) && s@ == decode_utf8(bytes@),
            None => !valid_utf8(bytes@),
        },
{
    match String::from_utf8(bytes) {
        Ok(s) => Some(s),
        Err(_) => None,
    }
}

/// Reads a 32-byte name field: strips the trailing null padding and decodes
/// the rest as UTF-8.
fn dec_name(region: &[u8]) -> (r: Result<String, DecodeError>)
    requires
        region@.len() == 32,
    ensures
        match r {
            Ok(s) => spec_dec_name(region@) == Ok::<Seq<char>, DecodeError>(s@),
            Err(e) => spec_dec_name(region@) == Err::<Seq<char>, DecodeError>(e),
        },
{
    let mut end: usize = 32;
    while end > 0 && region[end - 1] == 0
        invariant
            end <= 32,
            region@.len() == 32,
            forall|i: int| end <= i < 32 ==> region@[i] == 0,
        decreases end,
    {
        end -= 1;
    }
    proof {
        lemma_strip_prefix(region@, end as int);
    }
    let stripped = slice_to_vec(slice_subrange(region, 0, end));
    match string_from_utf8(stripped) {
        Some(s) => Ok(s),
        None => Err(DecodeError::InvalidName),
    }
}

/// Reads one method record starting at `pos`.
fn dec_method(bytes: &[u8], pos: usize) -> (r: Result<(Method, usize), DecodeError>)
    requires
        pos <= bytes@.len(),
    ensures
        match r {
            Ok((m, p2)) => pos <= p2 <= bytes@.len() && spec_dec_method(bytes@.skip(pos as int))
                == Ok::<(MethodView, Seq<u8>), DecodeError>((m@, bytes@.skip(p2 as int))),
            Err(e) => spec_dec_method(bytes@.skip(pos as int)) == Err::<
                (MethodView, Seq<u8>),
                DecodeError,
            >(e),
        },
{
    let ghost s = bytes@.skip(pos as int);
    let n = bytes.len();
    proof {
        assert(s.len() == n - pos);
    }
    if n - pos < 33 {
        return Err(DecodeError::NotEnoughData);
    }
    proof {
        assert(s[0] == bytes@[pos as int]);
    }
    let flags = swap_bits(bytes[pos]);
    if flags & 0xFC != 0 {
        return Err(DecodeError::InvalidFlags);
    }
    let region = slice_subrange(bytes, pos + 1, pos + 33);
    proof {
        assert(region@ =~= s.subrange(1, 33));
    }
    let name = match dec_name(region) {
        Ok(nm) => nm,
        Err(e) => {
            return Err(e);
        },
    };
    let ghost after_name = s.skip(33);
    proof {
        assert(after_name =~= bytes@.skip(pos as int + 33));
    }
    let has_cd = flags & 0x01 == 0x01;
    if has_cd && n - (pos + 33) < 4 {
        return Err(DecodeError::NotEnoughData);
    }
    let (block_cooldown, cur): (Option<u32>, usize) = if has_cd {
        proof {
            assert(after_name[0] == bytes@[pos as int + 33]);
            assert(after_name[1] == bytes@[pos as int + 34]);
            assert(after_name[2] == bytes@[pos as int + 35]);
            assert(after_name[3] == bytes@[pos as int + 36]);
        }
        (
            Some(
                read_cooldown(bytes[pos + 33], bytes[pos + 34], bytes[pos + 35], bytes[pos + 36]),
            ),
            pos + 37,
        )
    } else {
        (None, pos + 33)
    };
    let ghost rest = if flags & 0x01 == 0x01 {
        after_name.skip(4)
    } else {
        after_name
    };
    proof {
        assert(rest =~= bytes@.skip(cur as int));
    }
    if flags & 0x02 != 0x02 {
        let m = Method { name, block_cooldown, constraints: None };
        proof {
            assert(spec_dec_method(s) == Ok::<(MethodView, Seq<u8>), DecodeError>(
                (m@, bytes@.skip(cur as int)),
            ));
        }
        return Ok((m, cur));
    }
    if n - cur < 1 {
        return Err(DecodeError::NotEnoughData);
    }
    proof {
        assert(rest[0] == bytes@[cur as int]);
    }
    let lb = swap_bits(bytes[cur]);
    let clen = lb as usize + 1;
    if n - (cur + 1) < clen {
        return Err(DecodeError::InvalidConstraints);
    }
    let blob = slice_to_vec(slice_subrange(bytes, cur + 1, cur + 1 + clen));
    let newpos = cur + 1 + clen;
    proof {
        assert(rest.subrange(1, 1 + clen as int) =~= bytes@.subrange(
            cur as int + 1,
            cur as int + 1 + clen as int,
        ));
        assert(rest.skip(1 + clen as int) =~= bytes@.skip(newpos as int));
    }
    let m = Method { name, block_cooldown, constraints: Some(blob) };
    proof {
        assert(spec_dec_method(s) == Ok::<(MethodView, Seq<u8>), DecodeError>(
            (m@, bytes@.skip(newpos as int)),
        ));
    }
    Ok((m, newpos))
}

/// Reads `count` method records starting at `pos`, keyed by their own names.
fn dec_methods(bytes: &[u8], pos: usize, count: u8) -> (r: Result<
    (Vec<(String, Method)>, usize),
    DecodeError,
>)
    requires
        pos <= bytes@.len(),
    ensures
        match r {
            Ok((ms, p2)) => pos <= p2 <= bytes@.len() && spec_dec_methods(
                bytes@.skip(pos as int),
                count as nat,
            ) == Ok::<(Seq<(Seq<char>, MethodView)>, Seq<u8>), DecodeError>(
                (methods_view(ms@), bytes@.skip(p2 as int)),
            ),
            Err(e) => spec_dec_methods(bytes@.skip(pos as int), count as nat) == Err::<
                (Seq<(Seq<char>, MethodView)>, Seq<u8>),
                DecodeError,
            >(e),
        },
{
    let ghost s0 = bytes@.skip(pos as int);
    let mut acc: Vec<(String, Method)> = Vec::new();
    let mut cur: usize = pos;
    let mut i: u8 = 0;
    proof {
        assert(methods_view(acc@) =~= Seq::<(Seq<char>, MethodView)>::empty());
        match spec_dec_methods(s0, count as nat) {
            Ok((ms2, rest)) => {
                assert(methods_view(acc@) + ms2 =~= ms2);
            },
            Err(e) => {},
        }
    }
    while i < count
        invariant
            i <= count,
            pos <= cur <= bytes@.len(),
            s0 == bytes@.skip(pos as int),
            match spec_dec_methods(bytes@.skip(cur as int), (count - i) as nat) {
                Ok((ms2, rest)) => spec_dec_methods(s0, count as nat) == Ok::<
                    (Seq<(Seq<char>, MethodView)>, Seq<u8>),
                    DecodeError,
                >((methods_view(acc@) + ms2, rest)),
                Err(e) => spec_dec_methods(s0, count as nat) == Err::<
                    (Seq<(Seq<char>, MethodView)>, Seq<u8>),
                    DecodeError,
                >(e),
            },
        decreases count - i,
    {
        let (m, p2) = match dec_method(bytes, cur) {
            Ok(x) => x,
            Err(e) => {
                return Err(e);
            },
        };
        let ghost old_acc = acc@;
        let key = m.name.clone();
        acc.push((key, m));
        proof {
            assert(methods_view(acc@) =~= methods_view(old_acc) + seq![
                (acc@[acc@.len() - 1].1@.name, acc@[acc@.len() - 1].1@),
            ]);
            match spec_dec_methods(bytes@.skip(p2 as int), (count - i - 1) as nat) {
                Ok((ms2, rest)) => {
                    assert(methods_view(old_acc) + (seq![
                        (acc@[acc@.len() - 1].1@.name, acc@[acc@.len() - 1].1@),
                    ] + ms2) =~= methods_view(acc@) + ms2);
                },
                Err(e) => {},
            }
        }
        cur = p2;
        i = i + 1;
    }
    proof {
        assert(spec_dec_methods(bytes@.skip(cur as int), 0) == Ok::<
            (Seq<(Seq<char>, MethodView)>, Seq<u8>),
            DecodeError,
        >((Seq::empty(), bytes@.skip(cur as int))));
        assert(methods_view(acc@) + Seq::<(Seq<char>, MethodView)>::empty() =~= methods_view(
            acc@,
        ));
    }
    Ok((acc, cur))
}

/// Reads one module record starting at `pos`, its methods behind it.
fn dec_module(bytes: &[u8], pos: usize) -> (r: Result<(Module, usize), DecodeError>)
    requires
        pos <= bytes@.len(),
    ensures
        match r {
            Ok((m, p2)) => pos <= p2 <= bytes@.len() && spec_dec_module(bytes@.skip(pos as int))
                == Ok::<(ModuleView, Seq<u8>), DecodeError>((m@, bytes@.skip(p2 as int))),
            Err(e) => spec_dec_module(bytes@.skip(pos as int)) == Err::<
                (ModuleView, Seq<u8>),
                DecodeError,
            >(e),
        },
{
    let ghost s = bytes@.skip(pos as int);
    let n = bytes.len();
    proof {
        assert(s.len() == n - pos);
    }
    if n - pos < 33 {
        return Err(DecodeError::NotEnoughData);
    }
    proof {
        assert(s[0] == bytes@[pos as int]);
    }
    let flags = swap_bits(bytes[pos]);
    let region = slice_subrange(bytes, pos + 1, pos + 33);
    proof {
        assert(region@ =~= s.subrange(1, 33));
    }
    let name = match dec_name(region) {
        Ok(nm) => nm,
        Err(e) => {
            return Err(e);
        },
    };
    let ghost after_name = s.skip(33);
    proof {
        assert(after_name =~= bytes@.skip(pos as int + 33));
    }
    let has_cd = flags & 0x01 == 0x01;
    if has_cd && n - (pos + 33) < 4 {
        return Err(DecodeError::NotEnoughData);
    }
    let (block_cooldown, cur): (Option<u32>, usize) = if has_cd {
        proof {
            assert(after_name[0] == bytes@[pos as int + 33]);
            assert(after_name[1] == bytes@[pos as int + 34]);
            assert(after_name[2] == bytes@[pos as int + 35]);
            assert(after_name[3] == bytes@[pos as int + 36]);
        }
        (
            Some(
                read_cooldown(bytes[pos + 33], bytes[pos + 34], bytes[pos + 35], bytes[pos + 36]),
            ),
            pos + 37,
        )
    } else {
        (None, pos + 33)
    };
    let ghost rest = if flags & 0x01 == 0x01 {
        after_name.skip(4)
    } else {
        after_name
    };
    proof {
        assert(rest =~= bytes@.skip(cur as int));
    }
    let (methods, p2) = match dec_methods(bytes, cur, flags >> 1) {
        Ok(x) => x,
        Err(e) => {
            proof {
                assert(spec_dec_module(s) == Err::<(ModuleView, Seq<u8>), DecodeError>(e));
            }
            return Err(e);
        },
    };
    let m = Module { name, block_cooldown, methods };
    proof {
        assert(spec_dec_module(s) == Ok::<(ModuleView, Seq<u8>), DecodeError>(
            (m@, bytes@.skip(p2 as int)),
        ));
    }
    Ok((m, p2))
}

/// Reads `count` module records starting at `pos`, keyed by their own names.
fn dec_modules(bytes: &[u8], pos: usize, count: usize) -> (r: Result<
    (Vec<(String, Module)>, usize),
    DecodeError,
>)
    requires
        pos <= bytes@.len(),
    ensures
        match r {
            Ok((ms, p2)) => pos <= p2 <= bytes@.len() && spec_dec_modules(
                bytes@.skip(pos as int),
                count as nat,
            ) == Ok::<(Seq<(Seq<char>, ModuleView)>, Seq<u8>), DecodeError>(
                (modules_view(ms@), bytes@.skip(p2 as int)),
            ),
            Err(e) => spec_dec_modules(bytes@.skip(pos as int), count as nat) == Err::<
                (Seq<(Seq<char>, ModuleView)>, Seq<u8>),
                DecodeError,
            >(e),
        },
{
    let ghost s0 = bytes@.skip(pos as int);
    let mut acc: Vec<(String, Module)> = Vec::new();
    let mut cur: usize = pos;
    let mut i: usize = 0;
    proof {
        assert(modules_view(acc@) =~= Seq::<(Seq<char>, ModuleView)>::empty());
        match spec_dec_modules(s0, count as nat) {
            Ok((ms2, rest)) => {
                assert(modules_view(acc@) + ms2 =~= ms2);
            },
            Err(e) => {},
        }
    }
    while i < count
        invariant
            i <= count,
            pos <= cur <= bytes@.len(),
            s0 == bytes@.skip(pos as int),
            match spec_dec_modules(bytes@.skip(cur as int), (count - i) as nat) {
                Ok((ms2, rest)) => spec_dec_modules(s0, count as nat) == Ok::<
                    (Seq<(Seq<char>, ModuleView)>, Seq<u8>),
                    DecodeError,
                >((modules_view(acc@) + ms2, rest)),
                Err(e) => spec_dec_modules(s0, count as nat) == Err::<
                    (Seq<(Seq<char>, ModuleView)>, Seq<u8>),
                    DecodeError,
                >(e),
            },
        decreases count - i,
    {
        let (m, p2) = match dec_module(bytes, cur) {
            Ok(x) => x,
            Err(e) => {
                return Err(e);
            },
        };
        let ghost old_acc = acc@;
        let key = m.name.clone();
        acc.push((key, m));
        proof {
            assert(modules_view(acc@) =~= modules_view(old_acc) + seq![
                (acc@[acc@.len() - 1].1@.name, acc@[acc@.len() - 1].1@),
            ]);
            match spec_dec_modules(bytes@.skip(p2 as int), (count - i - 1) as nat) {
                Ok((ms2, rest)) => {
                    assert(modules_view(old_acc) + (seq![
                        (acc@[acc@.len() - 1].1@.name, acc@[acc@.len() - 1].1@),
                    ] + ms2) =~= modules_view(acc@) + ms2);
                },
                Err(e) => {},
            }
        }
        cur = p2;
        i = i + 1;
    }
    proof {
        assert(spec_dec_modules(bytes@.skip(cur as int), 0) == Ok::<
            (Seq<(Seq<char>, ModuleView)>, Seq<u8>),
            DecodeError,
        >((Seq::empty(), bytes@.skip(cur as int))));
        assert(modules_view(acc@) + Seq::<(Seq<char>, ModuleView)>::empty() =~= modules_view(
            acc@,
        ));
    }
    Ok((acc, cur))
}

impl TRNNutV0 {
    /// Decodes a payload whose two-byte version prefix was already consumed.
    pub fn partial_decode(bytes: &[u8]) -> (r: Result<TRNNutV0, DecodeError>)
        ensures
            match r {
                Ok(v) => spec_dec_payload(bytes@) == Ok::<V0View, DecodeError>(v@),
                Err(e) => spec_dec_payload(bytes@) == Err::<V0View, DecodeError>(e),
            },
    {
        if bytes.len() < 1 {
            return Err(DecodeError::NotEnoughData);
        }
        let count = swap_bits(bytes[0]) as usize + 1;
        match dec_modules(bytes, 1, count) {
            Err(e) => Err(e),
            Ok((modules, p)) => {
                if p == bytes.len() {
                    proof {
                        assert(bytes@.skip(p as int).len() == 0);
                    }
                    Ok(TRNNutV0 { modules })
                } else {
                    proof {
                        assert(bytes@.skip(p as int).len() > 0);
                    }
                    Err(DecodeError::TrailingData)
                }
            },
        }
    }

    /// Decodes a whole version-0 token, version prefix included; the version
    /// bytes must read zero.
    pub fn decode(bytes: &[u8]) -> (r: Result<TRNNutV0, DecodeError>)
        ensures
            match r {
                Ok(v) => spec_dec_v0(bytes@) == Ok::<V0View, DecodeError>(v@),
                Err(e) => spec_dec_v0(bytes@) == Err::<V0View, DecodeError>(e),
            },
    {
        if bytes.len() < 2 {
            return Err(DecodeError::NotEnoughData);
        }
        if bytes[0] != 0 || bytes[1] != 0 {
            return Err(DecodeError::ExpectedVersionZero);
        }
        let rest = slice_subrange(bytes, 2, bytes.len());
        proof {
            assert(rest@ =~= bytes@.skip(2));
        }
        TRNNutV0::partial_decode(rest)
    }
}


} // verus!
