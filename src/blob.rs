//! The embedding blob: the 32-bit words of an `f32` vector (their IEEE-754
//! bit patterns), each stored as four little-endian bytes, without header.
//! A blob whose length is not a multiple of four holds no embedding.
use vstd::prelude::*;

verus! {

/// The four little-endian bytes of `w`.
pub open spec fn word_bytes(w: u32) -> Seq<u8> {
    seq![(w & 0xff) as u8, ((w >> 8) & 0xff) as u8, ((w >> 16) & 0xff) as u8, (w >> 24) as u8]
}

/// The word whose little-endian bytes are `b0, b1, b2, b3`.
pub open spec fn word_of(b0: u8, b1: u8, b2: u8, b3: u8) -> u32 {
    (b0 as u32) | ((b1 as u32) << 8) | ((b2 as u32) << 16) | ((b3 as u32) << 24)
}

/// The blob of a word sequence: four little-endian bytes per word.
pub open spec fn encode_words(ws: Seq<u32>) -> Seq<u8> {
    Seq::new(4 * ws.len(), |j: int| word_bytes(ws[j / 4])[j % 4])
}

/// The words of a blob whose length is a multiple of four.
pub open spec fn decode_words(bs: Seq<u8>) -> Seq<u32> {
    Seq::new(
        bs.len() / 4,
        |i: int| word_of(bs[4 * i], bs[4 * i + 1], bs[4 * i + 2], bs[4 * i + 3]),
    )
}

/// What a blob decodes to: nothing when its length is not a multiple of four.
pub open spec fn decode_blob(bs: Seq<u8>) -> Option<Seq<u32>> {
    if bs.len() % 4 != 0 {
        None
    } else {
        Some(decode_words(bs))
    }
}

proof fn lemma_word_round_trip(w: u32)
    ensures
        word_of(word_bytes(w)[0], word_bytes(w)[1], word_bytes(w)[2], word_bytes(w)[3]) == w,
{
    let b0 = (w & 0xff) as u8;
    let b1 = ((w >> 8) & 0xff) as u8;
    let b2 = ((w >> 16) & 0xff) as u8;
    let b3 = (w >> 24) as u8;
    assert((b0 as u32) | ((b1 as u32) << 8) | ((b2 as u32) << 16) | ((b3 as u32) << 24) == w)
        by (bit_vector)
        requires
            b0 == (w & 0xff) as u8,
            b1 == ((w >> 8) & 0xff) as u8,
            b2 == ((w >> 16) & 0xff) as u8,
            b3 == (w >> 24) as u8,
    ;
}

proof fn lemma_index_split(i: int, k: int)
    requires
        0 <= i,
        0 <= k < 4,
    ensures
        (4 * i + k) / 4 == i,
        (4 * i + k) % 4 == k,
{
    assert((4 * i + k) / 4 == i) by (nonlinear_arith)
        requires
            0 <= i,
            0 <= k < 4,
    ;
    assert((4 * i + k) % 4 == k) by (nonlinear_arith)
        requires
            0 <= i,
            0 <= k < 4,
    ;
}

/// Round trip: decoding the blob of any word sequence gives that sequence.
pub proof fn lemma_blob_round_trip(ws: Seq<u32>)
    ensures
        decode_blob(encode_words(ws)) == Some(ws),
{
    let bs = encode_words(ws);
    assert(bs.len() % 4 == 0) by (nonlinear_arith)
        requires
            bs.len() == 4 * ws.len(),
    ;
    assert(bs.len() / 4 == ws.len()) by (nonlinear_arith)
        requires
            bs.len() == 4 * ws.len(),
    ;
    assert forall|i: int| 0 <= i < ws.len() implies #[trigger] decode_words(bs)[i] == ws[i] by {
        lemma_index_split(i, 0);
        lemma_index_split(i, 1);
        lemma_index_split(i, 2);
        lemma_index_split(i, 3);
        assert(4 * i + 3 < 4 * ws.len()) by (nonlinear_arith)
            requires
                0 <= i < ws.len(),
        ;
        lemma_word_round_trip(ws[i]);
    }
    assert(decode_words(bs) =~= ws);
}

/// A blob whose length is not a multiple of four holds no embedding.
pub proof fn lemma_blob_ill_formed(bs: Seq<u8>)
    requires
        bs.len() % 4 != 0,
    ensures
        decode_blob(bs) is None,
{
}

/// The blob of `words`: four little-endian bytes per word.
pub fn embedding_bits_to_bytes(words: &Vec<u32>) -> (r: Vec<u8>)
    requires
        words.len() * 4 <= usize::MAX,
    ensures
        r@ == encode_words(words@),
{
    let mut r: Vec<u8> = Vec::new();
    let mut i: usize = 0;
    while i < words.len()
        invariant
            i <= words.len(),
            words.len() * 4 <= usize::MAX,
            r@.len() == 4 * i,
            forall|j: int| 0 <= j < 4 * i ==> #[trigger] r@[j] == word_bytes(words@[j / 4])[j % 4],
        decreases words.len() - i,
    {
        let w = words[i];
        r.push((w & 0xff) as u8);
        r.push(((w >> 8) & 0xff) as u8);
        r.push(((w >> 16) & 0xff) as u8);
        r.push((w >> 24) as u8);
        proof {
            assert forall|j: int| 0 <= j < 4 * (i + 1) implies #[trigger] r@[j] == word_bytes(
                words@[j / 4],
            )[j % 4] by {
                if j >= 4 * i {
                    lemma_index_split(i as int, j - 4 * i);
                }
            }
        }
        i = i + 1;
    }
    assert(r@ =~= encode_words(words@));
    r
}

/// The words of `bytes`, four little-endian bytes each; `None` when the
/// length is not a multiple of four.
pub fn bytes_to_embedding_bits(bytes: &[u8]) -> (r: Option<Vec<u32>>)
    ensures
        r matches Some(w) ==> decode_blob(bytes@) == Some(w@),
        r is None <==> decode_blob(bytes@) is None,
{
    if bytes.len() % 4 != 0 {
        return None;
    }
    let n = bytes.len() / 4;
    let mut w: Vec<u32> = Vec::new();
    let mut i: usize = 0;
    while i < n
        invariant
            i <= n,
            n == bytes@.len() / 4,
            bytes@.len() % 4 == 0,
            w@.len() == i,
            forall|k: int|
                0 <= k < i ==> #[trigger] w@[k] == word_of(
                    bytes@[4 * k],
                    bytes@[4 * k + 1],
                    bytes@[4 * k + 2],
                    bytes@[4 * k + 3],
                ),
        decreases n - i,
    {
        assert(4 * i + 3 < bytes@.len()) by (nonlinear_arith)
            requires
                i < n,
                n == bytes@.len() / 4,
                bytes@.len() % 4 == 0,
        ;
        assert(4 * i + 3 < bytes.len());
        let j = 4 * i;
        let word = (bytes[j] as u32) | ((bytes[j + 1] as u32) << 8) | ((bytes[j + 2] as u32) << 16)
            | ((bytes[j + 3] as u32) << 24);
        w.push(word);
        i = i + 1;
    }
    assert(w@ =~= decode_words(bytes@));
    Some(w)
}

} // verus!
