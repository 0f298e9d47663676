//! Big-endian framing of the bytecode word array: four bytes per word,
//! most significant first, with no header.  A loader reads the raw byte
//! length, divides by four, and decodes each group of four bytes as one
//! word.

use vstd::prelude::*;

verus! {

/// The four big-endian bytes of one word, most significant first.
pub open spec fn be_bytes_of_word(w: u32) -> Seq<u8> {
    seq![
        (w / 0x1000000) as u8,
        ((w / 0x10000) % 0x100) as u8,
        ((w / 0x100) % 0x100) as u8,
        (w % 0x100) as u8,
    ]
}

/// The byte serialization of a word array: each word's four bytes, in
/// order.
pub open spec fn be_bytes_of_words(ws: Seq<u32>) -> Seq<u8>
    decreases ws.len(),
{
    if ws.len() == 0 {
        Seq::empty()
    } else {
        be_bytes_of_word(ws[0]) + be_bytes_of_words(ws.subrange(1, ws.len() as int))
    }
}

/// The word four big-endian bytes denote.
pub open spec fn word_of_be(b0: u8, b1: u8, b2: u8, b3: u8) -> u32 {
    (b0 * 0x1000000 + b1 * 0x10000 + b2 * 0x100 + b3) as u32
}

/// Decoding a word's four bytes gives the word back.
pub proof fn lemma_word_roundtrip(w: u32)
    ensures
        word_of_be(
            (w / 0x1000000) as u8,
            ((w / 0x10000) % 0x100) as u8,
            ((w / 0x100) % 0x100) as u8,
            (w % 0x100) as u8,
        ) == w,
{
    assert((w / 0x1000000) as u8 as u32 * 0x1000000 + ((w / 0x10000) % 0x100) as u8 as u32
        * 0x10000 + ((w / 0x100) % 0x100) as u8 as u32 * 0x100 + (w % 0x100) as u8 as u32 == w)
        by (bit_vector);
}

/// Serialize a word array big-endian, four bytes per word, no header.
pub fn words_to_bytes(words: &Vec<u32>) -> (r: Vec<u8>)
    ensures
        r@ == be_bytes_of_words(words@),
        r@.len() == 4 * words@.len(),
{
    let ghost wsv = words@;
    let mut out: Vec<u8> = Vec::new();
    let mut i: usize = 0;
    proof {
        assert(wsv.subrange(0, wsv.len() as int) =~= wsv);
    }
    while i < words.len()
        invariant
            i <= wsv.len(),
            wsv == words@,
            out@.len() == 4 * i,
            out@ + be_bytes_of_words(wsv.subrange(i as int, wsv.len() as int))
                == be_bytes_of_words(wsv),
        decreases wsv.len() - i,
    {
        let ghost rest = wsv.subrange(i as int, wsv.len() as int);
        proof {
            assert(rest[0] == wsv[i as int]);
            assert(rest.subrange(1, rest.len() as int) =~= wsv.subrange(i + 1, wsv.len() as int));
        }
        let w = words[i];
        let ghost pre = out@;
        out.push((w / 0x1000000) as u8);
        out.push(((w / 0x10000) % 0x100) as u8);
        out.push(((w / 0x100) % 0x100) as u8);
        out.push((w % 0x100) as u8);
        proof {
            assert(out@ =~= pre + be_bytes_of_word(wsv[i as int]));
            assert(out@ + be_bytes_of_words(wsv.subrange(i + 1, wsv.len() as int)) =~= pre
                + be_bytes_of_words(rest));
        }
        i = i + 1;
    }
    proof {
        assert(wsv.subrange(wsv.len() as int, wsv.len() as int) =~= Seq::<u32>::empty());
        assert(out@ =~= be_bytes_of_words(wsv));
    }
    out
}

/// Decode a raw byte buffer into words: every complete group of four
/// bytes becomes one big-endian word; a trailing fragment shorter than a
/// word is ignored.
pub fn bytes_to_words(bytes: &Vec<u8>) -> (r: Vec<u32>)
    ensures
        r@.len() == bytes@.len() / 4,
        forall|i: int|
            0 <= i < r@.len() ==> r@[i] == word_of_be(
                bytes@[4 * i],
                bytes@[4 * i + 1],
                bytes@[4 * i + 2],
                bytes@[4 * i + 3],
            ),
{
    let n = bytes.len() / 4;
    let mut out: Vec<u32> = Vec::new();
    let mut i: usize = 0;
    while i < n
        invariant
            i <= n,
            n == bytes@.len() / 4,
            bytes@.len() <= usize::MAX,
            out@.len() == i,
            forall|j: int|
                0 <= j < i ==> out@[j] == word_of_be(
                    bytes@[4 * j],
                    bytes@[4 * j + 1],
                    bytes@[4 * j + 2],
                    bytes@[4 * j + 3],
                ),
        decreases n - i,
    {
        proof {
            assert(4 * (i as int) + 4 <= 4 * (n as int));
            assert(4 * (n as int) <= bytes@.len());
        }
        let b0 = bytes[4 * i];
        let b1 = bytes[4 * i + 1];
        let b2 = bytes[4 * i + 2];
        let b3 = bytes[4 * i + 3];
        let w: u32 = (b0 as u32) * 0x1000000 + (b1 as u32) * 0x10000 + (b2 as u32) * 0x100 + (
        b3 as u32);
        out.push(w);
        i = i + 1;
    }
    out
}

/// Law: framing round-trips.  Serializing any word array and decoding the
/// bytes gives back a word array of the same length with the same words.
pub proof fn lemma_codec_roundtrip(ws: Seq<u32>)
    ensures
        be_bytes_of_words(ws).len() == 4 * ws.len(),
        forall|i: int|
            0 <= i < ws.len() ==> word_of_be(
                be_bytes_of_words(ws)[4 * i],
                be_bytes_of_words(ws)[4 * i + 1],
                be_bytes_of_words(ws)[4 * i + 2],
                be_bytes_of_words(ws)[4 * i + 3],
            ) == ws[i],
    decreases ws.len(),
{
    if ws.len() > 0 {
        let rest = ws.subrange(1, ws.len() as int);
        lemma_codec_roundtrip(rest);
        lemma_word_roundtrip(ws[0]);
        assert forall|i: int| 0 <= i < ws.len() implies word_of_be(
            be_bytes_of_words(ws)[4 * i],
            be_bytes_of_words(ws)[4 * i + 1],
            be_bytes_of_words(ws)[4 * i + 2],
            be_bytes_of_words(ws)[4 * i + 3],
        ) == ws[i] by {
            if i == 0 {
                assert(be_bytes_of_words(ws)[0] == be_bytes_of_word(ws[0])[0]);
                assert(be_bytes_of_words(ws)[1] == be_bytes_of_word(ws[0])[1]);
                assert(be_bytes_of_words(ws)[2] == be_bytes_of_word(ws[0])[2]);
                assert(be_bytes_of_words(ws)[3] == be_bytes_of_word(ws[0])[3]);
            } else {
                assert(rest[i - 1] == ws[i]);
                assert(be_bytes_of_words(ws)[4 * i] == be_bytes_of_words(rest)[4 * (i - 1)]);
                assert(be_bytes_of_words(ws)[4 * i + 1] == be_bytes_of_words(rest)[4 * (i - 1)
                    + 1]);
                assert(be_bytes_of_words(ws)[4 * i + 2] == be_bytes_of_words(rest)[4 * (i - 1)
                    + 2]);
                assert(be_bytes_of_words(ws)[4 * i + 3] == be_bytes_of_words(rest)[4 * (i - 1)
                    + 3]);
            }
        }
    }
}

} // verus!
