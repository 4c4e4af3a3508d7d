//! The two mutually exclusive run-length decompression schemes of the PID
//! format.
//!
//! Both schemes turn a prefix of the compressed byte stream into exactly
//! `pixels_count` palette-index bytes. A run whose length would overshoot the
//! requested count is truncated at the count: the decoder stops as soon as the
//! count is reached and leaves any remaining bytes of the stream unconsumed.

use vstd::prelude::*;

use crate::cursor::{PidDataCursor, PidError};
use crate::flags::CompressionMethod;

verus! {

/// Result of running the "Default" scheme on the stream suffix `s` until
/// `remaining` index bytes are produced: the produced indices and the number
/// of stream bytes consumed, or `None` when the stream is too short.
///
/// A control byte above 192 announces a run: the next byte, repeated
/// `control - 192` times (truncated at `remaining`). Any other byte is a
/// single literal index equal to its own value.
pub open spec fn decomp_default(s: Seq<u8>, remaining: nat) -> Option<(Seq<u8>, nat)>
    decreases remaining,
{
    if remaining == 0 {
        Some((Seq::empty(), 0))
    } else if s.len() < 1 {
        None
    } else {
        let a = s[0];
        if a > 192 {
            if s.len() < 2 {
                None
            } else {
                let n: int = if a - 192 <= remaining {
                    a - 192
                } else {
                    remaining as int
                };
                let b = s[1];
                match decomp_default(s.skip(2), (remaining - n) as nat) {
                    Some(t) => Some((Seq::new(n as nat, |k: int| b) + t.0, (t.1 + 2) as nat)),
                    None => None,
                }
            }
        } else {
            match decomp_default(s.skip(1), (remaining - 1) as nat) {
                Some(t) => Some((seq![a] + t.0, (t.1 + 1) as nat)),
                None => None,
            }
        }
    }
}

/// Result of running the "RunLengthEncoding" scheme on the stream suffix `s`
/// until `remaining` index bytes are produced.
///
/// A control byte above 128 announces `control - 128` zero-valued indices
/// (truncated at `remaining`). A control byte `a` of at most 128 announces a
/// literal run: the next `a` stream bytes, each its own index, of which only
/// as many as still fit are read (`a == 0` is a legal no-op step).
pub open spec fn decomp_rle(s: Seq<u8>, remaining: nat) -> Option<(Seq<u8>, nat)>
    decreases remaining, s.len(),
{
    if remaining == 0 {
        Some((Seq::empty(), 0))
    } else if s.len() < 1 {
        None
    } else {
        let a = s[0];
        if a > 128 {
            let n: int = if a - 128 <= remaining {
                a - 128
            } else {
                remaining as int
            };
            match decomp_rle(s.skip(1), (remaining - n) as nat) {
                Some(t) => Some((Seq::new(n as nat, |k: int| 0u8) + t.0, (t.1 + 1) as nat)),
                None => None,
            }
        } else {
            let n: int = if a <= remaining {
                a as int
            } else {
                remaining as int
            };
            if s.len() < 1 + n {
                None
            } else {
                match decomp_rle(s.skip(1 + n), (remaining - n) as nat) {
                    Some(t) => Some((s.subrange(1, 1 + n) + t.0, (t.1 + 1 + n) as nat)),
                    None => None,
                }
            }
        }
    }
}

/// The scheme that the flag word selected, as one spec function.
pub open spec fn decomp_by(m: CompressionMethod, s: Seq<u8>, remaining: nat) -> Option<
    (Seq<u8>, nat),
> {
    match m {
        CompressionMethod::Default => decomp_default(s, remaining),
        CompressionMethod::RunLengthEncoding => decomp_rle(s, remaining),
    }
}

/// When the "Default" scheme succeeds it produces exactly the requested
/// number of index bytes.
pub proof fn lemma_decomp_default_len(s: Seq<u8>, remaining: nat)
    ensures
        decomp_default(s, remaining) matches Some(t) ==> t.0.len() == remaining,
    decreases remaining,
{
    if remaining == 0 {
    } else if s.len() < 1 {
    } else {
        let a = s[0];
        if a > 192 {
            if s.len() >= 2 {
                let n: int = if a - 192 <= remaining {
                    a - 192
                } else {
                    remaining as int
                };
                lemma_decomp_default_len(s.skip(2), (remaining - n) as nat);
            }
        } else {
            lemma_decomp_default_len(s.skip(1), (remaining - 1) as nat);
        }
    }
}

/// When the "RunLengthEncoding" scheme succeeds it produces exactly the
/// requested number of index bytes.
pub proof fn lemma_decomp_rle_len(s: Seq<u8>, remaining: nat)
    ensures
        decomp_rle(s, remaining) matches Some(t) ==> t.0.len() == remaining,
    decreases remaining, s.len(),
{
    if remaining == 0 {
    } else if s.len() < 1 {
    } else {
        let a = s[0];
        if a > 128 {
            let n: int = if a - 128 <= remaining {
                a - 128
            } else {
                remaining as int
            };
            lemma_decomp_rle_len(s.skip(1), (remaining - n) as nat);
        } else {
            let n: int = if a <= remaining {
                a as int
            } else {
                remaining as int
            };
            if s.len() >= 1 + n {
                lemma_decomp_rle_len(s.skip(1 + n), (remaining - n) as nat);
            }
        }
    }
}

/// A compressed stream under the "Default" scheme that decodes back to `p`:
/// each index of at most 192 as itself, each larger index as a run of one.
pub open spec fn encode_default(p: Seq<u8>) -> Seq<u8>
    decreases p.len(),
{
    if p.len() == 0 {
        Seq::empty()
    } else if p[0] > 192 {
        seq![193u8, p[0]] + encode_default(p.skip(1))
    } else {
        seq![p[0]] + encode_default(p.skip(1))
    }
}

/// A compressed stream under the "RunLengthEncoding" scheme that decodes back
/// to `p`: each zero index as a zero-run of one, each other as a literal run
/// of one.
pub open spec fn encode_rle(p: Seq<u8>) -> Seq<u8>
    decreases p.len(),
{
    if p.len() == 0 {
        Seq::empty()
    } else if p[0] == 0 {
        seq![129u8] + encode_rle(p.skip(1))
    } else {
        seq![1u8, p[0]] + encode_rle(p.skip(1))
    }
}

/// Round trip of the "Default" scheme: decoding the encoding of any index
/// buffer `p` reproduces `p` exactly and consumes the whole encoded stream.
pub proof fn lemma_round_trip_default(p: Seq<u8>)
    ensures
        decomp_default(encode_default(p), p.len()) == Some((p, encode_default(p).len())),
    decreases p.len(),
{
    let e = encode_default(p);
    if p.len() == 0 {
        assert(e =~= Seq::<u8>::empty());
    } else {
        let rest = p.skip(1);
        lemma_round_trip_default(rest);
        let er = encode_default(rest);
        if p[0] > 192 {
            assert(e[0] == 193);
            assert(e[1] == p[0]);
            assert(e.skip(2) =~= er);
            assert(Seq::new(1nat, |k: int| p[0]) + rest =~= p);
            assert(e.len() == 2 + er.len());
        } else {
            assert(e[0] == p[0]);
            assert(e.skip(1) =~= er);
            assert(seq![p[0]] + rest =~= p);
            assert(e.len() == 1 + er.len());
        }
    }
}

/// Round trip of the "RunLengthEncoding" scheme: decoding the encoding of any
/// index buffer `p` reproduces `p` exactly and consumes the whole encoded
/// stream.
pub proof fn lemma_round_trip_rle(p: Seq<u8>)
    ensures
        decomp_rle(encode_rle(p), p.len()) == Some((p, encode_rle(p).len())),
    decreases p.len(),
{
    let e = encode_rle(p);
    if p.len() == 0 {
        assert(e =~= Seq::<u8>::empty());
    } else {
        let rest = p.skip(1);
        lemma_round_trip_rle(rest);
        let er = encode_rle(rest);
        if p[0] == 0 {
            assert(e[0] == 129);
            assert(e.skip(1) =~= er);
            assert(Seq::new(1nat, |k: int| 0u8) + rest =~= p);
            assert(e.len() == 1 + er.len());
        } else {
            assert(e[0] == 1);
            assert(e[1] == p[0]);
            assert(e.skip(2) =~= er);
            assert(e.subrange(1, 2) =~= seq![p[0]]);
            assert(e.subrange(1, 2) + rest =~= p);
            assert(e.len() == 2 + er.len());
        }
    }
}

proof fn lemma_skip_of_skip(s: Seq<u8>, a: int, b: int)
    requires
        0 <= a,
        0 <= b,
        a + b <= s.len(),
    ensures
        s.skip(a).skip(b) == s.skip(a + b),
{
    assert(s.skip(a).skip(b) =~= s.skip(a + b));
}

proof fn lemma_subrange_of_skip(s: Seq<u8>, a: int, i: int, j: int)
    requires
        0 <= a,
        0 <= i <= j,
        a + j <= s.len(),
    ensures
        s.skip(a).subrange(i, j) == s.subrange(a + i, a + j),
{
    assert(s.skip(a).subrange(i, j) =~= s.subrange(a + i, a + j));
}

/// Decompress under the "Default" scheme: fill `pixels` with exactly
/// `pixels_count` index bytes read from the cursor, or report `OutOfBounds`
/// when the stream ends first.
#[verifier::loop_isolation(false)]
pub fn decompress_default(
    data: &mut PidDataCursor,
    pixels: &mut Vec<u8>,
    pixels_count: usize,
) -> (r: Result<(), PidError>)
    requires
        old(pixels)@.len() == 0,
        old(data).offset <= old(data).data@.len(),
    ensures
        final(data).data@ == old(data).data@,
        match r {
            Ok(()) => {
                &&& old(data).offset <= final(data).offset <= old(data).data@.len()
                &&& decomp_default(
                    old(data).data@.skip(old(data).offset as int),
                    pixels_count as nat,
                ) == Some(
                    (final(pixels)@, (final(data).offset - old(data).offset) as nat),
                )
                &&& final(pixels)@.len() == pixels_count
            },
            Err(e) => {
                &&& e == PidError::OutOfBounds
                &&& decomp_default(
                    old(data).data@.skip(old(data).offset as int),
                    pixels_count as nat,
                ) is None
            },
        },
{
    let ghost s0: Seq<u8> = data.data@;
    let ghost off0: int = data.offset as int;
    while pixels.len() < pixels_count
        invariant
            data.data@ == s0,
            off0 <= data.offset as int <= s0.len(),
            pixels@.len() <= pixels_count,
            ({
                let d = decomp_default(
                    s0.skip(data.offset as int),
                    (pixels_count - pixels@.len()) as nat,
                );
                &&& (d matches Some(t) ==> decomp_default(s0.skip(off0), pixels_count as nat)
                    == Some((pixels@ + t.0, (data.offset - off0 + t.1) as nat)))
                &&& (d is None ==> decomp_default(s0.skip(off0), pixels_count as nat) is None)
            }),
        decreases pixels_count - pixels@.len(),
    {
        let ghost off_ctrl: int = data.offset as int;
        let ghost pix_ctrl: Seq<u8> = pixels@;
        let ghost rem: int = pixels_count - pixels@.len();
        let a: u8;
        match data.next_u8() {
            Ok(x) => {
                a = x;
            },
            Err(e) => {
                proof {
                    assert(s0.skip(off_ctrl).len() == 0);
                }
                return Err(e);
            },
        }
        proof {
            assert(s0.skip(off_ctrl)[0] == s0[off_ctrl]);
        }
        if a > 192 {
            let b: u8;
            match data.next_u8() {
                Ok(x) => {
                    b = x;
                },
                Err(e) => {
                    proof {
                        assert(s0.skip(off_ctrl).len() == 1);
                    }
                    return Err(e);
                },
            }
            proof {
                assert(s0.skip(off_ctrl)[1] == s0[off_ctrl + 1]);
            }
            let n: u8 = a - 192;
            let ghost n_spec: int = if a - 192 <= rem {
                a - 192
            } else {
                rem
            };
            let mut i: u8 = 0;
            while i < n && pixels.len() < pixels_count
                invariant
                    i <= n,
                    i <= pixels_count - pix_ctrl.len(),
                    pixels@ == pix_ctrl + Seq::new(i as nat, |k: int| b),
                    data.offset == off_ctrl + 2,
                decreases n - i,
            {
                pixels.push(b);
                i = i + 1;
                proof {
                    assert(pixels@ =~= pix_ctrl + Seq::new(i as nat, |k: int| b));
                }
            }
            proof {
                assert(i as int == n_spec);
                lemma_skip_of_skip(s0, off_ctrl, 2);
                let d_new = decomp_default(
                    s0.skip(data.offset as int),
                    (pixels_count - pixels@.len()) as nat,
                );
                let d_old = decomp_default(s0.skip(off_ctrl), rem as nat);
                match d_new {
                    Some(t) => {
                        assert(d_old == Some(
                            (Seq::new(n_spec as nat, |k: int| b) + t.0, (t.1 + 2) as nat),
                        ));
                        assert(pix_ctrl + (Seq::new(n_spec as nat, |k: int| b) + t.0) =~= (
                        pix_ctrl + Seq::new(n_spec as nat, |k: int| b)) + t.0);
                    },
                    None => {},
                }
            }
        } else {
            pixels.push(a);
            proof {
                lemma_skip_of_skip(s0, off_ctrl, 1);
                let d_new = decomp_default(
                    s0.skip(data.offset as int),
                    (pixels_count - pixels@.len()) as nat,
                );
                let d_old = decomp_default(s0.skip(off_ctrl), rem as nat);
                match d_new {
                    Some(t) => {
                        assert(d_old == Some((seq![a] + t.0, (t.1 + 1) as nat)));
                        assert(pix_ctrl + (seq![a] + t.0) =~= (pix_ctrl + seq![a]) + t.0);
                        assert(pixels@ =~= pix_ctrl + seq![a]);
                    },
                    None => {},
                }
            }
        }
    }
    proof {
        assert(pixels@.len() == pixels_count);
        assert(decomp_default(s0.skip(data.offset as int), 0) == Some(
            (Seq::<u8>::empty(), 0nat),
        ));
        assert(pixels@ + Seq::<u8>::empty() =~= pixels@);
    }
    Ok(())
}

/// Decompress under the "RunLengthEncoding" scheme: fill `pixels` with
/// exactly `pixels_count` index bytes read from the cursor, or report
/// `OutOfBounds` when the stream ends first.
#[verifier::loop_isolation(false)]
pub fn decompress_run_length_encoding(
    data: &mut PidDataCursor,
    pixels: &mut Vec<u8>,
    pixels_count: usize,
) -> (r: Result<(), PidError>)
    requires
        old(pixels)@.len() == 0,
        old(data).offset <= old(data).data@.len(),
    ensures
        final(data).data@ == old(data).data@,
        match r {
            Ok(()) => {
                &&& old(data).offset <= final(data).offset <= old(data).data@.len()
                &&& decomp_rle(
                    old(data).data@.skip(old(data).offset as int),
                    pixels_count as nat,
                ) == Some(
                    (final(pixels)@, (final(data).offset - old(data).offset) as nat),
                )
                &&& final(pixels)@.len() == pixels_count
            },
            Err(e) => {
                &&& e == PidError::OutOfBounds
                &&& decomp_rle(
                    old(data).data@.skip(old(data).offset as int),
                    pixels_count as nat,
                ) is None
            },
        },
{
    let ghost s0: Seq<u8> = data.data@;
    let ghost off0: int = data.offset as int;
    while pixels.len() < pixels_count
        invariant
            data.data@ == s0,
            off0 <= data.offset as int <= s0.len(),
            pixels@.len() <= pixels_count,
            ({
                let d = decomp_rle(
                    s0.skip(data.offset as int),
                    (pixels_count - pixels@.len()) as nat,
                );
                &&& (d matches Some(t) ==> decomp_rle(s0.skip(off0), pixels_count as nat)
                    == Some((pixels@ + t.0, (data.offset - off0 + t.1) as nat)))
                &&& (d is None ==> decomp_rle(s0.skip(off0), pixels_count as nat) is None)
            }),
        decreases pixels_count - pixels@.len(), s0.len() - data.offset,
    {
        let ghost off_ctrl: int = data.offset as int;
        let ghost pix_ctrl: Seq<u8> = pixels@;
        let ghost rem: int = pixels_count - pixels@.len();
        let a: u8;
        match data.next_u8() {
            Ok(x) => {
                a = x;
            },
            Err(e) => {
                proof {
                    assert(s0.skip(off_ctrl).len() == 0);
                }
                return Err(e);
            },
        }
        proof {
            assert(s0.skip(off_ctrl)[0] == s0[off_ctrl]);
        }
        if a > 128 {
            let n: u8 = a - 128;
            let ghost n_spec: int = if a - 128 <= rem {
                a - 128
            } else {
                rem
            };
            let mut i: u8 = 0;
            while i < n && pixels.len() < pixels_count
                invariant
                    i <= n,
                    i <= pixels_count - pix_ctrl.len(),
                    pixels@ == pix_ctrl + Seq::new(i as nat, |k: int| 0u8),
                    data.offset == off_ctrl + 1,
                decreases n - i,
            {
                pixels.push(0);
                i = i + 1;
                proof {
                    assert(pixels@ =~= pix_ctrl + Seq::new(i as nat, |k: int| 0u8));
                }
            }
            proof {
                assert(i as int == n_spec);
                lemma_skip_of_skip(s0, off_ctrl, 1);
                let d_new = decomp_rle(
                    s0.skip(data.offset as int),
                    (pixels_count - pixels@.len()) as nat,
                );
                let d_old = decomp_rle(s0.skip(off_ctrl), rem as nat);
                match d_new {
                    Some(t) => {
                        assert(d_old == Some(
                            (Seq::new(n_spec as nat, |k: int| 0u8) + t.0, (t.1 + 1) as nat),
                        ));
                        assert(pix_ctrl + (Seq::new(n_spec as nat, |k: int| 0u8) + t.0) =~= (
                        pix_ctrl + Seq::new(n_spec as nat, |k: int| 0u8)) + t.0);
                    },
                    None => {},
                }
            }
        } else {
            let ghost off1: int = data.offset as int;
            let ghost n_spec: int = if a <= rem {
                a as int
            } else {
                rem
            };
            let mut j: u8 = 0;
            while j < a && pixels.len() < pixels_count
                invariant
                    j <= a,
                    j <= pixels_count - pix_ctrl.len(),
                    pixels@.len() == pix_ctrl.len() + j,
                    data.offset == off1 + j,
                    data.offset <= s0.len(),
                    data.data@ == s0,
                    pixels@ == pix_ctrl + s0.subrange(off1, off1 + j as int),
                decreases a - j,
            {
                let b: u8;
                match data.next_u8() {
                    Ok(x) => {
                        b = x;
                    },
                    Err(e) => {
                        proof {
                            assert(s0.skip(off_ctrl).len() == 1 + j);
                            assert(j < n_spec);
                        }
                        return Err(e);
                    },
                }
                pixels.push(b);
                j = j + 1;
                proof {
                    assert(pixels@ =~= pix_ctrl + s0.subrange(off1, off1 + j as int));
                }
            }
            proof {
                assert(j as int == n_spec);
                lemma_skip_of_skip(s0, off_ctrl, 1 + n_spec);
                lemma_subrange_of_skip(s0, off_ctrl, 1, 1 + n_spec);
                assert(s0.skip(off_ctrl).subrange(1, 1 + n_spec) == s0.subrange(
                    off1,
                    off1 + n_spec,
                ));
                let d_new = decomp_rle(
                    s0.skip(data.offset as int),
                    (pixels_count - pixels@.len()) as nat,
                );
                let d_old = decomp_rle(s0.skip(off_ctrl), rem as nat);
                match d_new {
                    Some(t) => {
                        assert(d_old == Some(
                            (
                                s0.skip(off_ctrl).subrange(1, 1 + n_spec) + t.0,
                                (t.1 + 1 + n_spec) as nat,
                            ),
                        ));
                        assert(pix_ctrl + (s0.subrange(off1, off1 + n_spec) + t.0) =~= (pix_ctrl
                            + s0.subrange(off1, off1 + n_spec)) + t.0);
                    },
                    None => {},
                }
            }
        }
    }
    proof {
        assert(pixels@.len() == pixels_count);
        assert(decomp_rle(s0.skip(data.offset as int), 0) == Some((Seq::<u8>::empty(), 0nat)));
        assert(pixels@ + Seq::<u8>::empty() =~= pixels@);
    }
    Ok(())
}

} // verus!
