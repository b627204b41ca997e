//! The binary program format: consecutive 32-bit little-endian words, with
//! no header.
use vstd::prelude::*;

verus! {

/// The word whose little-endian bytes are `b0, b1, b2, b3`.
pub open spec fn le_word(b0: u8, b1: u8, b2: u8, b3: u8) -> u32 {
    (b0 as int + b1 as int * 0x100 + b2 as int * 0x1_0000 + b3 as int * 0x100_0000) as u32
}

/// The four little-endian bytes of a word.
pub open spec fn word_bytes(w: u32) -> Seq<u8> {
    seq![
        (w % 0x100) as u8,
        ((w / 0x100) % 0x100) as u8,
        ((w / 0x1_0000) % 0x100) as u8,
        (w / 0x100_0000) as u8,
    ]
}

/// The byte stream of a sequence of words.
pub open spec fn le_bytes(ws: Seq<u32>) -> Seq<u8>
    decreases ws.len(),
{
    if ws.len() == 0 {
        Seq::empty()
    } else {
        le_bytes(ws.drop_last()) + word_bytes(ws.last())
    }
}

/// The words read from a byte stream; a trailing partial word is not read.
pub open spec fn le_words(b: Seq<u8>) -> Seq<u32> {
    Seq::new(b.len() / 4, |i: int| le_word(b[4 * i], b[4 * i + 1], b[4 * i + 2], b[4 * i + 3]))
}

/// Serialises words as consecutive little-endian bytes.
pub fn encode_words(ws: &[u32]) -> (r: Vec<u8>)
    ensures
        r@ == le_bytes(ws@),
{
    let mut out: Vec<u8> = Vec::new();
    let mut i: usize = 0;
    while i < ws.len()
        invariant
            i <= ws@.len(),
            out@ == le_bytes(ws@.take(i as int)),
        decreases ws@.len() - i,
    {
        let w = ws[i];
        out.push((w % 0x100) as u8);
        out.push(((w / 0x100) % 0x100) as u8);
        out.push(((w / 0x1_0000) % 0x100) as u8);
        out.push((w / 0x100_0000) as u8);
        proof {
            assert(ws@.take(i + 1).drop_last() =~= ws@.take(i as int));
            assert(out@ =~= le_bytes(ws@.take(i as int)) + word_bytes(w));
        }
        i = i + 1;
    }
    proof {
        assert(ws@.take(i as int) =~= ws@);
    }
    out
}

/// Reads consecutive little-endian words; a trailing partial word is not read.
pub fn decode_words(b: &[u8]) -> (r: Vec<u32>)
    ensures
        r@ == le_words(b@),
{
    let mut out: Vec<u32> = Vec::new();
    let mut k: usize = 0;
    while b.len() - k >= 4
        invariant
            k <= b@.len(),
            k == 4 * out@.len(),
            out@ =~= le_words(b@).take(out@.len() as int),
        decreases b@.len() - k,
    {
        let w: u64 = b[k] as u64 + b[k + 1] as u64 * 0x100 + b[k + 2] as u64 * 0x1_0000
            + b[k + 3] as u64 * 0x100_0000;
        out.push(w as u32);
        k = k + 4;
    }
    proof {
        assert(out@.len() == b@.len() / 4);
        assert(out@ =~= le_words(b@));
    }
    out
}

/// Reading back the bytes of a word gives the word.
pub proof fn lemma_word_round_trip(w: u32)
    ensures
        le_word(word_bytes(w)[0], word_bytes(w)[1], word_bytes(w)[2], word_bytes(w)[3]) == w,
{
    let b = word_bytes(w);
    assert(b[0] == w % 0x100);
    assert(w == w % 0x100 + (w / 0x100) % 0x100 * 0x100 + (w / 0x1_0000) % 0x100 * 0x1_0000
        + (w / 0x100_0000) * 0x100_0000) by (nonlinear_arith);
}

/// Decoding the serialised form of a word sequence gives back the sequence.
pub proof fn lemma_encode_decode(ws: Seq<u32>)
    ensures
        le_bytes(ws).len() == 4 * ws.len(),
        le_words(le_bytes(ws)) == ws,
    decreases ws.len(),
{
    if ws.len() > 0 {
        lemma_encode_decode(ws.drop_last());
        lemma_word_round_trip(ws.last());
        let b = le_bytes(ws);
        let p = le_bytes(ws.drop_last());
        assert(le_words(b) =~= ws) by {
            assert forall|i: int| 0 <= i < ws.len() implies le_words(b)[i] == ws[i] by {
                if i < ws.len() - 1 {
                    assert(le_words(p)[i] == ws.drop_last()[i]);
                }
            }
        }
    } else {
        assert(le_words(le_bytes(ws)) =~= ws);
    }
}

} // verus!
