use vstd::prelude::*;

use std::collections::HashMap;

use crate::bitstream::{
    spec_bits_value, spec_bytes_bits, spec_int_bits, spec_pack_bits, BitReader, BitStream,
};
use crate::reader::DecodeError;

verus! {

broadcast use vstd::std_specs::hash::group_hash_axioms;

/// The code that resets the dictionary: `1 << min_code_size`.
pub open spec fn spec_clear_code(mcs: u8) -> u16 {
    1u16 << mcs
}

/// The end-of-information code: `clear_code + 1`.
pub open spec fn spec_eoi_code(mcs: u8) -> u16 {
    ((1u16 << mcs) + 1) as u16
}

/// The bits the encoder emits after the leading clear code, given the
/// dictionary of multi-symbol strings (keyed `prefix_code * 256 +
/// next_byte`), the next free code, the current code width, the code
/// of the current prefix, and the input left to consume.
pub open spec fn spec_enc_loop(
    dict: Map<u64, u16>,
    next: u16,
    width: u8,
    prefix: u16,
    input: Seq<u8>,
    mcs: u8,
) -> Seq<bool>
    decreases input.len(),
{
    if input.len() == 0 {
        spec_int_bits(prefix, width as nat) + spec_int_bits(spec_eoi_code(mcs), width as nat)
    } else {
        let x = input[0];
        let key = ((prefix as u64) * 256 + (x as u64)) as u64;
        if dict.dom().contains(key) {
            spec_enc_loop(dict, next, width, dict[key], input.skip(1), mcs)
        } else {
            let emitted = spec_int_bits(prefix, width as nat);
            let dict2 = dict.insert(key, next);
            let next2 = (next + 1) as u16;
            let width2 = if next2 - 1 == 1u16 << width {
                (width + 1) as u8
            } else {
                width
            };
            if next2 >= 4096 {
                emitted + spec_int_bits(spec_clear_code(mcs), width2 as nat) + spec_enc_loop(
                    Map::empty(),
                    (spec_eoi_code(mcs) + 1) as u16,
                    (mcs + 1) as u8,
                    x as u16,
                    input.skip(1),
                    mcs,
                )
            } else {
                emitted + spec_enc_loop(dict2, next2, width2, x as u16, input.skip(1), mcs)
            }
        }
    }
}

/// Every bit the encoder emits: a clear code first, then the coded
/// input, the code for the last prefix, and the end-of-information
/// code.
pub open spec fn spec_lzw_encode_bits(mcs: u8, input: Seq<u8>) -> Seq<bool> {
    let w0 = ((mcs + 1) as u8) as nat;
    if input.len() == 0 {
        spec_int_bits(spec_clear_code(mcs), w0) + spec_int_bits(spec_eoi_code(mcs), w0)
    } else {
        spec_int_bits(spec_clear_code(mcs), w0) + spec_enc_loop(
            Map::empty(),
            (spec_eoi_code(mcs) + 1) as u16,
            (mcs + 1) as u8,
            input[0] as u16,
            input.skip(1),
            mcs,
        )
    }
}

/// The decoder's dictionary right after a reset: one single-byte
/// string per code below the clear code, and placeholder entries for
/// the clear and end-of-information codes.
pub open spec fn spec_init_dict(clear: u16) -> Seq<Seq<u8>> {
    Seq::new(
        (clear + 2) as nat,
        |i: int|
            if i < clear {
                seq![i as u8]
            } else {
                Seq::<u8>::empty()
            },
    )
}

/// What the decoder makes of the bit stream from position `pos` on:
/// `None` when a code arrives before the dictionary defines it, the
/// decoded bytes otherwise. Bits that no longer hold a whole code are
/// ignored, as are bits after the end-of-information code.
pub open spec fn spec_dec_loop(
    bits: Seq<bool>,
    pos: nat,
    dict: Seq<Seq<u8>>,
    width: u8,
    prev: Seq<u8>,
    mcs: u8,
    acc: Seq<u8>,
) -> Option<Seq<u8>>
    decreases bits.len() - pos,
{
    let clear = spec_clear_code(mcs);
    if width == 0 || pos + width > bits.len() {
        Some(acc)
    } else {
        let code = spec_bits_value(bits.subrange(pos as int, pos + width));
        let pos2 = (pos + width) as nat;
        if code == clear {
            spec_dec_loop(
                bits,
                pos2,
                spec_init_dict(clear),
                (mcs + 1) as u8,
                Seq::empty(),
                mcs,
                acc,
            )
        } else if code == clear + 1 {
            Some(acc)
        } else if prev.len() == 0 {
            if code < clear {
                spec_dec_loop(bits, pos2, dict, width, seq![code as u8], mcs, acc + seq![code as u8])
            } else {
                None
            }
        } else if code < dict.len() {
            let s = dict[code as int];
            let dict2 = dict.push(prev + seq![s[0]]);
            let width2 = if dict2.len() == 1u16 << width && width < 12 {
                (width + 1) as u8
            } else {
                width
            };
            spec_dec_loop(bits, pos2, dict2, width2, s, mcs, acc + s)
        } else if code == dict.len() {
            let s = prev + seq![prev[0]];
            let dict2 = dict.push(s);
            let width2 = if dict2.len() == 1u16 << width && width < 12 {
                (width + 1) as u8
            } else {
                width
            };
            spec_dec_loop(bits, pos2, dict2, width2, s, mcs, acc + s)
        } else {
            None
        }
    }
}

/// The whole decode of an LZW byte stream.
pub open spec fn spec_lzw_decode(mcs: u8, bytes: Seq<u8>) -> Option<Seq<u8>> {
    spec_dec_loop(
        spec_bytes_bits(bytes),
        0,
        spec_init_dict(spec_clear_code(mcs)),
        (mcs + 1) as u8,
        Seq::empty(),
        mcs,
        Seq::empty(),
    )
}

/// A sequence of byte vectors, seen as a sequence of byte sequences.
pub open spec fn spec_rows(d: Seq<Vec<u8>>) -> Seq<Seq<u8>> {
    Seq::new(d.len(), |i: int| d[i]@)
}

/// The variable-width LZW coder with dynamic code-size growth,
/// dictionary reset on overflow, and LSB-first bit packing.
pub struct LZW {
    min_code_size: u8,
}

impl LZW {
    pub closed spec fn spec_min_code_size(&self) -> u8 {
        self.min_code_size
    }

    /// A coder for symbols below `1 << minimum_size`;
    /// `minimum_size` is kept within the format's `2..=8`.
    pub fn new(minimum_size: u8) -> (r: LZW)
        ensures
            r.spec_min_code_size() == if minimum_size < 2 {
                2u8
            } else if minimum_size > 8 {
                8u8
            } else {
                minimum_size
            },
    {
        let clamped: u8 = if minimum_size < 2 {
            2
        } else if minimum_size > 8 {
            8
        } else {
            minimum_size
        };
        LZW { min_code_size: clamped }
    }

    /// Compresses `indicies`: emits a clear code, the coded input and
    /// the end-of-information code, and packs the bits LSB-first.
    pub fn encode(&self, indicies: &Vec<u8>) -> (r: Vec<u8>)
        requires
            2 <= self.spec_min_code_size() <= 8,
        ensures
            r@ == spec_pack_bits(spec_lzw_encode_bits(self.spec_min_code_size(), indicies@)),
    {
        let mcs = self.min_code_size;
        let ghost total = spec_lzw_encode_bits(mcs, indicies@);
        proof {
            assert(4 <= 1u16 << mcs <= 256 && (1u16 << mcs) + 1 <= 257 && mcs + 1 <= 9)
                by (bit_vector)
                requires
                    2 <= mcs <= 8,
            ;
        }
        let clear: u16 = 1u16 << mcs;
        let eoi: u16 = clear + 1;
        let mut out = BitStream::new();
        let width0: u8 = mcs + 1;
        out.push_bits(width0, clear);

        if indicies.len() == 0 {
            out.push_bits(width0, eoi);
            proof {
                assert(out@ =~= total);
            }
            return out.vec();
        }

        let mut dict: HashMap<u64, u16> = HashMap::new();
        let mut next_code: u16 = eoi + 1;
        let mut width: u8 = width0;
        let mut prefix: u16 = indicies[0] as u16;
        let mut i: usize = 1;
        proof {
            assert(out@ + spec_enc_loop(dict@, next_code, width, prefix, indicies@.skip(1), mcs)
                =~= total);
        }
        while i < indicies.len()
            invariant
                2 <= mcs <= 8,
                mcs == self.spec_min_code_size(),
                clear == 1u16 << mcs,
                4 <= clear <= 256,
                eoi == clear + 1,
                total == spec_lzw_encode_bits(mcs, indicies@),
                1 <= i <= indicies@.len(),
                1 <= width <= 12,
                1 <= next_code <= 4095,
                out.wf(),
                total == out@ + spec_enc_loop(
                    dict@,
                    next_code,
                    width,
                    prefix,
                    indicies@.skip(i as int),
                    mcs,
                ),
            decreases indicies@.len() - i,
        {
            let ghost s = indicies@.skip(i as int);
            let ghost st_dict = dict@;
            let ghost st_next = next_code;
            let ghost st_width = width;
            let ghost st_prefix = prefix;
            let ghost st_out = out@;
            let x = indicies[i];
            let key: u64 = (prefix as u64) * 256 + (x as u64);
            proof {
                assert(s[0] == indicies@[i as int]);
                assert(s.skip(1) =~= indicies@.skip(i as int + 1));
            }
            let hit = dict.get(&key);
            match hit {
                Some(code_ref) => {
                    let code = *code_ref;
                    prefix = code;
                    proof {
                        assert(st_dict.dom().contains(key));
                        assert(spec_enc_loop(st_dict, st_next, st_width, st_prefix, s, mcs)
                            == spec_enc_loop(
                            st_dict,
                            st_next,
                            st_width,
                            st_dict[key],
                            s.skip(1),
                            mcs,
                        ));
                    }
                },
                None => {
                    proof {
                        assert(!st_dict.dom().contains(key));
                    }
                    out.push_bits(width, prefix);
                    dict.insert(key, next_code);
                    next_code = next_code + 1;
                    if next_code - 1 == 1u16 << width {
                        proof {
                            assert((1u16 << width) <= 4095 && width <= 12 ==> width + 1 <= 12)
                                by (bit_vector);
                        }
                        width = width + 1;
                    }
                    let ghost w2 = width;
                    let ghost emitted = spec_int_bits(st_prefix, st_width as nat);
                    if next_code >= 4096 {
                        out.push_bits(width, clear);
                        dict = HashMap::new();
                        next_code = eoi + 1;
                        width = mcs + 1;
                        proof {
                            let rest = spec_enc_loop(
                                Map::empty(),
                                (spec_eoi_code(mcs) + 1) as u16,
                                (mcs + 1) as u8,
                                x as u16,
                                s.skip(1),
                                mcs,
                            );
                            assert(spec_enc_loop(st_dict, st_next, st_width, st_prefix, s, mcs)
                                == emitted + spec_int_bits(spec_clear_code(mcs), w2 as nat)
                                + rest);
                            assert(st_out + (emitted + spec_int_bits(
                                spec_clear_code(mcs),
                                w2 as nat,
                            ) + rest) =~= out@ + rest);
                        }
                    } else {
                        proof {
                            let rest = spec_enc_loop(
                                st_dict.insert(key, st_next),
                                (st_next + 1) as u16,
                                w2,
                                x as u16,
                                s.skip(1),
                                mcs,
                            );
                            assert(spec_enc_loop(st_dict, st_next, st_width, st_prefix, s, mcs)
                                == emitted + rest);
                            assert(st_out + (emitted + rest) =~= out@ + rest);
                        }
                    }
                    prefix = x as u16;
                },
            }
            i = i + 1;
        }
        proof {
            assert(indicies@.skip(i as int) =~= Seq::<u8>::empty());
        }
        out.push_bits(width, prefix);
        out.push_bits(width, eoi);
        proof {
            assert(out@ =~= total);
        }
        out.vec()
    }

    /// Decompresses an LZW byte stream. Stops at the
    /// end-of-information code or when the bits run out, and reports
    /// [`DecodeError::LzwInvalidCode`] for a code used before the
    /// dictionary defines it.
    pub fn decode(&self, data: &Vec<u8>) -> (r: Result<Vec<u8>, DecodeError>)
        requires
            2 <= self.spec_min_code_size() <= 8,
            data@.len() <= 0x0FFF_FFFF,
        ensures
            match r {
                Ok(v) => spec_lzw_decode(self.spec_min_code_size(), data@) == Some(v@),
                Err(e) => e == DecodeError::LzwInvalidCode && spec_lzw_decode(
                    self.spec_min_code_size(),
                    data@,
                ) is None,
            },
    {
        let mcs = self.min_code_size;
        let ghost bits = spec_bytes_bits(data@);
        let ghost goal = spec_lzw_decode(mcs, data@);
        proof {
            assert(4 <= 1u16 << mcs <= 256 && (1u16 << mcs) + 1 <= 257 && mcs + 1 <= 9)
                by (bit_vector)
                requires
                    2 <= mcs <= 8,
            ;
        }
        let clear: u16 = 1u16 << mcs;
        let eoi: u16 = clear + 1;
        let mut reader = BitReader::new(clone_bytes(data));
        let mut dict: Vec<Vec<u8>> = make_initial_dict(clear);
        let mut width: u8 = mcs + 1;
        let mut prev_code: Option<u16> = None;
        let mut out: Vec<u8> = Vec::new();
        proof {
            assert(spec_rows(dict@) =~= spec_init_dict(clear));
            assert(dict@.len() == clear + 2);
            assert forall|k: int| 0 <= k < dict@.len() implies (k < clear ==> dict@[k]@ == seq![
                k as u8,
            ]) && (k != clear && k != eoi ==> dict@[k]@.len() >= 1) by {
                assert(dict@[k]@ == spec_init_dict(clear)[k]);
            }
            assert(goal == spec_dec_loop(
                bits,
                0,
                spec_rows(dict@),
                width,
                Seq::empty(),
                mcs,
                out@,
            ));
        }
        while reader.has_bits(width)
            invariant
                2 <= mcs <= 8,
                mcs == self.spec_min_code_size(),
                clear == 1u16 << mcs,
                eoi == clear + 1,
                4 <= clear <= 256,
                goal == spec_lzw_decode(mcs, data@),
                1 <= width <= 12,
                reader.wf(),
                reader.spec_data() == data@,
                bits == spec_bytes_bits(data@),
                clear + 2 <= dict@.len(),
                forall|k: int|
                    0 <= k < dict@.len() && k != clear && k != eoi ==> #[trigger] dict@[k]@.len()
                        >= 1,
                forall|k: int| 0 <= k < clear ==> #[trigger] dict@[k]@ == seq![k as u8],
                match prev_code {
                    None => true,
                    Some(c) => c < dict@.len() && c != clear && c != eoi,
                },
                goal == spec_dec_loop(
                    bits,
                    reader.spec_pos(),
                    spec_rows(dict@),
                    width,
                    match prev_code {
                        None => Seq::<u8>::empty(),
                        Some(c) => dict@[c as int]@,
                    },
                    mcs,
                    out@,
                ),
            decreases 8 * data@.len() - reader.spec_pos(),
        {
            let ghost pos0 = reader.spec_pos();
            let ghost dv = spec_rows(dict@);
            let ghost st_width = width;
            let ghost st_out = out@;
            let ghost prev_seq: Seq<u8> = match prev_code {
                None => Seq::<u8>::empty(),
                Some(c) => dict@[c as int]@,
            };
            let code = reader.pop_bits(width);
            proof {
                assert(bits.subrange(pos0 as int, pos0 + st_width) =~= bits.subrange(
                    pos0 as int,
                    pos0 as int + st_width as int,
                ));
                // One unfolding of the spec at the position just read.
                assert(goal == spec_dec_loop(bits, pos0, dv, st_width, prev_seq, mcs, st_out));
            }
            let ghost spec_code = spec_bits_value(
                bits.subrange(pos0 as int, pos0 + st_width),
            );
            if code == clear {
                dict = make_initial_dict(clear);
                width = mcs + 1;
                prev_code = None;
                proof {
                    assert(spec_rows(dict@) =~= spec_init_dict(clear));
                    assert(dict@.len() == clear + 2);
                    assert forall|k: int| 0 <= k < dict@.len() implies (k < clear ==> dict@[k]@
                        == seq![k as u8]) && (k != clear && k != eoi ==> dict@[k]@.len() >= 1) by {
                        assert(dict@[k]@ == spec_init_dict(clear)[k]);
                    }
                    assert(goal == spec_dec_loop(
                        bits,
                        reader.spec_pos(),
                        spec_rows(dict@),
                        width,
                        Seq::<u8>::empty(),
                        mcs,
                        out@,
                    ));
                }
            } else if code == eoi {
                proof {
                    assert(goal == Some(out@));
                }
                return Ok(out);
            } else if prev_code.is_none() {
                if code < clear {
                    let ghost out_pre = out@;
                    out.push(code as u8);
                    prev_code = Some(code);
                    proof {
                        assert(dict@[code as int]@ == seq![code as u8]);
                        assert(out@ =~= out_pre + seq![code as u8]);
                    }
                } else {
                    proof {
                        assert(goal is None);
                    }
                    return Err(DecodeError::LzwInvalidCode);
                }
            } else if (code as usize) < dict.len() {
                let prev_c = match prev_code {
                    Some(c) => c,
                    None => 0,
                };
                let first = dict[code as usize][0];
                let mut entry = clone_bytes(&dict[prev_c as usize]);
                entry.push(first);
                let ghost entry_seq = entry@;
                dict.push(entry);
                proof {
                    assert((1usize << width) == (1u16 << width) as usize) by (bit_vector)
                        requires
                            width <= 12,
                    ;
                }
                if dict.len() == (1usize << width) && width < 12 {
                    width = width + 1;
                }
                let ghost out_pre = out@;
                crate::push_all(&mut out, &dict[code as usize]);
                prev_code = Some(code);
                proof {
                    let s = dv[code as int];
                    assert(entry_seq =~= prev_seq + seq![s[0]]);
                    assert(spec_rows(dict@) =~= dv.push(prev_seq + seq![s[0]]));
                    assert(out@ =~= out_pre + s);
                }
            } else if (code as usize) == dict.len() {
                let prev_c = match prev_code {
                    Some(c) => c,
                    None => 0,
                };
                let mut entry = clone_bytes(&dict[prev_c as usize]);
                let first = dict[prev_c as usize][0];
                entry.push(first);
                let ghost entry_seq = entry@;
                dict.push(entry);
                proof {
                    assert((1usize << width) == (1u16 << width) as usize) by (bit_vector)
                        requires
                            width <= 12,
                    ;
                }
                if dict.len() == (1usize << width) && width < 12 {
                    width = width + 1;
                }
                let ghost out_pre = out@;
                let last = dict.len() - 1;
                crate::push_all(&mut out, &dict[last]);
                prev_code = Some(last as u16);
                proof {
                    assert(entry_seq =~= prev_seq + seq![prev_seq[0]]);
                    assert(spec_rows(dict@) =~= dv.push(prev_seq + seq![prev_seq[0]]));
                    assert(out@ =~= out_pre + entry_seq);
                }
            } else {
                proof {
                    assert(goal is None);
                }
                return Err(DecodeError::LzwInvalidCode);
            }
        }
        proof {
            assert(goal == Some(out@));
        }
        Ok(out)
    }
}

/// A fresh copy of a byte vector.
fn clone_bytes(v: &Vec<u8>) -> (r: Vec<u8>)
    ensures
        r@ == v@,
{
    let mut r: Vec<u8> = Vec::new();
    crate::push_all(&mut r, v);
    proof {
        assert(r@ =~= v@);
    }
    r
}

/// Builds the decoder's dictionary as it stands after a reset.
fn make_initial_dict(clear: u16) -> (r: Vec<Vec<u8>>)
    requires
        clear <= 256,
    ensures
        spec_rows(r@) == spec_init_dict(clear),
{
    let mut dict: Vec<Vec<u8>> = Vec::new();
    let mut v: u16 = 0;
    while v < clear
        invariant
            v <= clear <= 256,
            dict@.len() == v,
            forall|k: int| 0 <= k < v ==> #[trigger] dict@[k]@ == seq![k as u8],
        decreases clear - v,
    {
        let mut single: Vec<u8> = Vec::new();
        single.push(v as u8);
        proof {
            assert(single@ =~= seq![v as u8]);
        }
        dict.push(single);
        v = v + 1;
    }
    let empty1: Vec<u8> = Vec::new();
    let empty2: Vec<u8> = Vec::new();
    dict.push(empty1);
    dict.push(empty2);
    proof {
        assert(spec_rows(dict@) =~= spec_init_dict(clear));
    }
    dict
}

} // verus!
