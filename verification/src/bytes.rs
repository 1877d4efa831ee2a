//! Words as bytes, the way GPU buffers take them.

use vstd::prelude::*;

verus! {

/// Byte `k` of a word, counted from the least significant one.
pub open spec fn byte_of(word: u32, k: int) -> u8 {
    let unit: int = if k == 0 {
        1
    } else if k == 1 {
        0x100
    } else if k == 2 {
        0x1_0000
    } else {
        0x100_0000
    };
    (word as int / unit % 0x100) as u8
}

/// The bytes of a row of words, each word with its least significant byte
/// first (`little`) or last.
pub open spec fn word_bytes(words: Seq<u32>, little: bool) -> Seq<u8> {
    Seq::new(
        4 * words.len(),
        |i: int|
            byte_of(
                words[i / 4],
                if little {
                    i % 4
                } else {
                    3 - i % 4
                },
            ),
    )
}

/// Calls `bytemuck::cast_slice` from `u32` to `u8`, which views the words'
/// memory as bytes. The result is four bytes per word, in the machine's byte
/// order; which order that is, is not stated.
#[verifier::external_body]
fn cast_words(words: &[u32]) -> (bytes: Vec<u8>)
    ensures
        bytes@ == word_bytes(words@, true) || bytes@ == word_bytes(words@, false),
{
    bytemuck::cast_slice::<u32, u8>(words).to_vec()
}

/// Calls `bytemuck::pod_collect_to_vec` from `u8` to `u32`, which copies the
/// bytes into the memory of words. They become one word per four bytes, in the
/// machine's byte order; which order that is, is not stated.
#[verifier::external_body]
fn collect_words(bytes: &[u8]) -> (words: Vec<u32>)
    requires
        bytes@.len() % 4 == 0,
    ensures
        bytes@ == word_bytes(words@, true) || bytes@ == word_bytes(words@, false),
{
    bytemuck::pod_collect_to_vec::<u8, u32>(bytes)
}

/// The memory image of a row of words, together with its byte order. The order
/// is read off a 1 that goes through memory along with the words.
pub fn image_in_order(words: &[u32]) -> (r: (Vec<u8>, bool))
    ensures
        r.0@ == word_bytes(words@, r.1),
{
    let mut marked: Vec<u32> = vstd::slice::slice_to_vec(words);
    marked.push(1);
    let mut bytes: Vec<u8> = cast_words(marked.as_slice());
    let end: usize = bytes.len() - 4;
    let little: bool = bytes[end] == 1;
    bytes.truncate(end);
    assert(bytes@ =~= word_bytes(words@, little));
    (bytes, little)
}

/// The memory image of a row of words in the given byte order. Should this
/// machine have the other one, the bytes of every word are turned round.
pub fn bytes_in_order(words: &[u32], little: bool) -> (bytes: Vec<u8>)
    ensures
        bytes@ == word_bytes(words@, little),
{
    let (image, native): (Vec<u8>, bool) = image_in_order(words);
    if native == little {
        return image;
    }
    let mut bytes: Vec<u8> = Vec::new();
    let mut i: usize = 0;
    while i < words.len()
        invariant
            i <= words@.len(),
            native != little,
            image@ == word_bytes(words@, native),
            bytes@ =~= word_bytes(words@, little).take(4 * i),
        decreases words@.len() - i,
    {
        assert(image.len() == 4 * words@.len());
        bytes.push(image[4 * i + 3]);
        bytes.push(image[4 * i + 2]);
        bytes.push(image[4 * i + 1]);
        bytes.push(image[4 * i]);
        i += 1;
    }
    assert(bytes@ =~= word_bytes(words@, little));
    bytes
}

/// A word with its bytes in the opposite order.
pub open spec fn swapped(word: u32) -> u32 {
    (0x100_0000 * byte_of(word, 0) + 0x1_0000 * byte_of(word, 1) + 0x100 * byte_of(word, 2)
        + byte_of(word, 3)) as u32
}

fn swap(word: u32) -> (r: u32)
    ensures
        r == swapped(word),
{
    word % 0x100 * 0x100_0000 + word / 0x100 % 0x100 * 0x1_0000 + word / 0x1_0000 % 0x100 * 0x100
        + word / 0x100_0000
}

/// The words of a memory image in the given byte order. Should this machine
/// have the other one, which a 1 that goes through memory along with the image
/// shows, every word is turned round.
pub fn words_in_order(bytes: &[u8], little: bool) -> (words: Vec<u32>)
    requires
        bytes@.len() % 4 == 0,
    ensures
        bytes@ == word_bytes(words@, little),
        words@.len() == bytes@.len() / 4,
{
    let mut marked: Vec<u8> = vstd::slice::slice_to_vec(bytes);
    marked.push(1);
    marked.push(0);
    marked.push(0);
    marked.push(0);
    let mut words: Vec<u32> = collect_words(marked.as_slice());
    let ghost read = words@;
    assert(word_bytes(read, true).len() == 4 * read.len() && word_bytes(read, false).len() == 4
        * read.len());
    let end: usize = words.len() - 1;
    proof {
        law_words_read_back(read, end as int, true);
        law_words_read_back(read, end as int, false);
    }
    let native: bool = words[end] == 1;
    words.truncate(end);
    assert(bytes@ =~= word_bytes(words@, native)) by {
        assert(marked@ == word_bytes(read, native));
        assert forall|i: int| 0 <= i < bytes@.len() implies bytes@[i] == word_bytes(
            words@,
            native,
        )[i] by {
            assert(bytes@[i] == marked@[i]);
        }
    }
    if native == little {
        return words;
    }
    let mut turned: Vec<u32> = Vec::new();
    let mut i: usize = 0;
    while i < words.len()
        invariant
            i <= words@.len(),
            turned@ =~= Seq::new(i as nat, |k: int| swapped(words@[k])),
        decreases words@.len() - i,
    {
        turned.push(swap(words[i]));
        i += 1;
    }
    proof {
        lemma_swapped_image(words@, turned@, native);
    }
    turned
}

proof fn lemma_bytes_of(a: int, b: int, c: int, d: int)
    requires
        0 <= a < 0x100,
        0 <= b < 0x100,
        0 <= c < 0x100,
        0 <= d < 0x100,
    ensures
        ({
            let word = (0x100_0000 * d + 0x1_0000 * c + 0x100 * b + a) as u32;
            &&& byte_of(word, 0) == a
            &&& byte_of(word, 1) == b
            &&& byte_of(word, 2) == c
            &&& byte_of(word, 3) == d
        }),
{
    let word = 0x100_0000 * d + 0x1_0000 * c + 0x100 * b + a;
    assert(word / 0x100 == 0x1_0000 * d + 0x100 * c + b);
    assert(word / 0x1_0000 == 0x100 * d + c);
    assert(word / 0x100_0000 == d);
}

proof fn lemma_swapped_image(words: Seq<u32>, turned: Seq<u32>, little: bool)
    requires
        turned == Seq::new(words.len(), |k: int| swapped(words[k])),
    ensures
        word_bytes(turned, !little) == word_bytes(words, little),
{
    assert forall|i: int| 0 <= i < 4 * words.len() implies word_bytes(turned, !little)[i]
        == word_bytes(words, little)[i] by {
        let w = words[i / 4];
        assert(turned[i / 4] == swapped(w));
        lemma_bytes_of(
            byte_of(w, 3) as int,
            byte_of(w, 2) as int,
            byte_of(w, 1) as int,
            byte_of(w, 0) as int,
        );
        assert(i % 4 == 0 || i % 4 == 1 || i % 4 == 2 || i % 4 == 3);
    }
    assert(word_bytes(turned, !little) =~= word_bytes(words, little));
}

/// The word that four bytes stand for, in the given byte order.
pub open spec fn word_at(bytes: Seq<u8>, i: int, little: bool) -> int {
    if little {
        bytes[4 * i] + 0x100 * bytes[4 * i + 1] + 0x1_0000 * bytes[4 * i + 2] + 0x100_0000
            * bytes[4 * i + 3]
    } else {
        bytes[4 * i + 3] + 0x100 * bytes[4 * i + 2] + 0x1_0000 * bytes[4 * i + 1] + 0x100_0000
            * bytes[4 * i]
    }
}

/// A memory image loses nothing: read in the byte order it was written in, it
/// gives back every word.
pub proof fn law_words_read_back(words: Seq<u32>, i: int, little: bool)
    requires
        0 <= i < words.len(),
    ensures
        word_bytes(words, little).len() == 4 * words.len(),
        word_at(word_bytes(words, little), i, little) == words[i],
{
    let bytes = word_bytes(words, little);
    let w = words[i];
    assert((4 * i) / 4 == i && (4 * i + 1) / 4 == i && (4 * i + 2) / 4 == i && (4 * i + 3) / 4
        == i);
    assert(w == w % 0x100 + 0x100 * (w / 0x100 % 0x100) + 0x1_0000 * (w / 0x1_0000 % 0x100)
        + 0x100_0000 * (w / 0x100_0000 % 0x100));
}

/// No two rows of words have the same memory image in one byte order, so what
/// is read from an image is what was written into it.
pub proof fn law_what_is_written_is_read(written: Seq<u32>, read: Seq<u32>, little: bool)
    requires
        word_bytes(written, little) == word_bytes(read, little),
    ensures
        read == written,
{
    assert(word_bytes(written, little).len() == 4 * written.len());
    assert(word_bytes(read, little).len() == 4 * read.len());
    assert forall|i: int| 0 <= i < read.len() implies read[i] == written[i] by {
        law_words_read_back(written, i, little);
        law_words_read_back(read, i, little);
    }
    assert(read =~= written);
}

} // verus!
