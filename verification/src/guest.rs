//! The business logic of the example guests: a sum, a clock reader, an adapter, a
//! session that concatenates, and the frame of a session that runs a model.

use crate::canonical;
use crate::transform_session;
use crate::transform_session::{EmitKind, EmittedBlob};
use vstd::prelude::*;

verus! {

// ---------------------------------------------------------------------------
// Words
// ---------------------------------------------------------------------------

/// The little-endian number of four bytes.
pub open spec fn word_at(bytes: Seq<u8>, i: int) -> nat {
    (bytes[i] + 256 * bytes[i + 1] + 65536 * bytes[i + 2] + 16777216 * bytes[i + 3]) as nat
}

/// The little-endian words of a byte string; up to three bytes at the end that
/// make no word are left out.
pub open spec fn le_words(bytes: Seq<u8>) -> Seq<u32> {
    Seq::new(bytes.len() / 4, |i: int| word_at(bytes, 4 * i) as u32)
}

/// Splits a byte string into little-endian words.
pub fn words_of(bytes: &[u8]) -> (words: Vec<u32>)
    ensures
        words@ == le_words(bytes@),
{
    let mut words: Vec<u32> = Vec::new();
    let mut i: usize = 0;
    while i < bytes.len() / 4
        invariant
            i <= bytes@.len() / 4,
            words@ == le_words(bytes@).take(i as int),
        decreases bytes@.len() / 4 - i,
    {
        let at: usize = 4 * i;
        let word: u32 = bytes[at] as u32 + 256 * bytes[at + 1] as u32 + 65536 * bytes[at + 2] as u32
            + 16777216 * bytes[at + 3] as u32;
        words.push(word);
        assert(words@ =~= le_words(bytes@).take(i + 1));
        i = i + 1;
    }
    assert(words@ =~= le_words(bytes@));
    words
}

// ---------------------------------------------------------------------------
// compute
// ---------------------------------------------------------------------------

/// The sum of some words.
pub open spec fn word_sum(words: Seq<u32>) -> nat
    decreases words.len(),
{
    if words.len() == 0 {
        0
    } else {
        word_sum(words.drop_last()) + words.last() as nat
    }
}

/// What `compute` makes of its input: the sum of its words, modulo the size of a
/// word, as a word.
pub open spec fn computed(input: Seq<u8>) -> Seq<u8> {
    canonical::le_bytes(word_sum(le_words(input)) % 0x1_0000_0000, 4)
}

/// Interprets the input as little-endian words and returns their wrapping sum as
/// a little-endian word.
pub fn transform(input: &[u8]) -> (output: Vec<u8>)
    ensures
        output@ == computed(input@),
{
    let words = words_of(input);
    let ghost all = le_words(input@);
    let mut sum: u32 = 0;
    let mut i: usize = 0;
    assert(all.take(0) =~= Seq::empty());
    while i < words.len()
        invariant
            i <= words@.len(),
            words@ == all,
            sum == word_sum(all.take(i as int)) % 0x1_0000_0000,
        decreases words@.len() - i,
    {
        proof {
            assert(all.take(i + 1).drop_last() =~= all.take(i as int));
            assert(all.take(i + 1).last() == all[i as int]);
        }
        sum = sum.wrapping_add(words[i]);
        i = i + 1;
    }
    assert(all.take(all.len() as int) =~= all);
    let mut output: Vec<u8> = Vec::new();
    canonical::push_le(&mut output, sum as u64, 4);
    assert(output@ =~= computed(input@));
    output
}

// ---------------------------------------------------------------------------
// adapter
// ---------------------------------------------------------------------------

/// The entry that the host calls: forwards to the wired-in `compute`.
pub fn run(input: &[u8]) -> (output: Vec<u8>)
    ensures
        output@ == computed(input@),
{
    transform(input)
}

// ---------------------------------------------------------------------------
// compute_clock
// ---------------------------------------------------------------------------

/// Appends the seconds of the wall clock to the input, as eight little-endian
/// bytes.
pub fn append_seconds(input: Vec<u8>, seconds: u64) -> (output: Vec<u8>)
    ensures
        output@ == input@ + canonical::le_bytes(seconds as nat, 8),
{
    let mut output = input;
    canonical::push_le(&mut output, seconds, 8);
    output
}

// ---------------------------------------------------------------------------
// concat
// ---------------------------------------------------------------------------

/// A session that accumulates what is written and emits the concatenation.
#[derive(Debug)]
pub struct ConcatSession {
    written: Vec<u8>,
}

impl ConcatSession {
    /// What was written since the session was configured.
    pub closed spec fn written(&self) -> Seq<u8> {
        self.written@
    }

    /// A session that nothing was written to.
    pub fn new() -> (s: ConcatSession)
        ensures
            s.written() == Seq::<u8>::empty(),
    {
        ConcatSession { written: Vec::new() }
    }

    /// Starts over, whatever the configuration.
    pub fn configure(&mut self, _config: &[u8])
        ensures
            final(self).written() == Seq::<u8>::empty(),
    {
        self.written.clear();
    }

    /// Takes more plaintext.
    pub fn write(&mut self, data: &[u8])
        ensures
            final(self).written() == old(self).written() + data@,
    {
        self.written.extend_from_slice(data);
        assert(self.written() =~= old(self).written() + data@);
    }

    /// Commits what was written; there is nothing to do.
    pub fn commit(&mut self)
        ensures
            final(self).written() == old(self).written(),
    {
    }

    /// The concatenation, to be emitted in plaintext under the key `result`.
    pub fn finalize(&self) -> (blob: EmittedBlob)
        ensures
            blob@ == (transform_session::EmittedBlobView {
                key: "result"@,
                value: self.written(),
                kind: EmitKind::Unencrypted,
            }),
    {
        EmittedBlob {
            key: "result".to_string(),
            value: vstd::slice::slice_to_vec(self.written.as_slice()),
            kind: EmitKind::Unencrypted,
        }
    }
}

// ---------------------------------------------------------------------------
// onnx
// ---------------------------------------------------------------------------

/// Rows of the input image.
pub const ROWS: usize = 28;

/// Columns of the input image.
pub const COLS: usize = 28;

/// Pixels of the input image.
pub const PIXELS: usize = 784;

/// The pixels of an image: the bit patterns of its 32-bit floats, little-endian
/// and row by row. `None` where there is not one for each pixel.
pub fn image_pixels(bytes: &[u8]) -> (r: Option<Vec<u32>>)
    ensures
        r is Some <==> bytes@.len() / 4 == PIXELS,
        r matches Some(pixels) ==> pixels@ == le_words(bytes@),
{
    let pixels = words_of(bytes);
    if pixels.len() == PIXELS {
        Some(pixels)
    } else {
        None
    }
}

/// The place of a 32-bit float in the total order of floats, by its bit pattern:
/// positive floats by their magnitude, below them negative floats by theirs,
/// reversed.
pub open spec fn float_place(bits: u32) -> int {
    if bits < 0x8000_0000 {
        bits as int
    } else {
        0x7fff_ffff - bits
    }
}

fn place_of(bits: u32) -> (place: i64)
    ensures
        place == float_place(bits),
{
    if bits < 0x8000_0000 {
        bits as i64
    } else {
        0x7fff_ffff - bits as i64
    }
}

/// Whether a score is the highest, and the last of its height.
pub open spec fn is_best(scores: Seq<u32>, best: int) -> bool {
    &&& 0 <= best < scores.len()
    &&& forall|j: int|
        0 <= j < scores.len() ==> float_place(#[trigger] scores[j]) <= float_place(scores[best])
    &&& forall|j: int|
        best < j < scores.len() ==> float_place(#[trigger] scores[j]) < float_place(scores[best])
}

/// The highest of the scores, which are the bit patterns of 32-bit floats; the
/// last one, where several are alike.
pub fn best_score(scores: &[u32]) -> (best: Option<usize>)
    ensures
        best is Some <==> scores@.len() > 0,
        best matches Some(i) ==> is_best(scores@, i as int),
{
    if scores.len() == 0 {
        return None;
    }
    let mut best: usize = 0;
    let mut i: usize = 1;
    while i < scores.len()
        invariant
            best < i <= scores@.len(),
            forall|j: int|
                0 <= j < i ==> float_place(#[trigger] scores@[j]) <= float_place(
                    scores@[best as int],
                ),
            forall|j: int|
                best < j < i ==> float_place(#[trigger] scores@[j]) < float_place(
                    scores@[best as int],
                ),
        decreases scores@.len() - i,
    {
        if place_of(scores[i]) >= place_of(scores[best]) {
            best = i;
        }
        i = i + 1;
    }
    Some(best)
}

/// The prediction that is emitted: the digit and its score, each as four
/// little-endian bytes.
pub open spec fn prediction_bytes(digit: nat, score: u32) -> Seq<u8> {
    canonical::le_bytes(digit, 4) + canonical::le_bytes(score as nat, 4)
}

/// The prediction that a model's scores stand for, to be emitted in plaintext
/// under the key `prediction`.
pub fn prediction(scores: &[u32]) -> (r: Option<EmittedBlob>)
    ensures
        r is Some <==> scores@.len() > 0,
        r matches Some(blob) ==> exists|best: int|
            #![trigger is_best(scores@, best)]
            is_best(scores@, best) && blob@ == (transform_session::EmittedBlobView {
                key: "prediction"@,
                value: prediction_bytes(best as nat, scores@[best]),
                kind: EmitKind::Unencrypted,
            }),
{
    match best_score(scores) {
        Some(best) => {
            let mut value: Vec<u8> = Vec::new();
            canonical::push_le(&mut value, best as u64, 4);
            canonical::push_le(&mut value, scores[best] as u64, 4);
            proof {
                assert(is_best(scores@, best as int));
                assert(value@ =~= prediction_bytes(best as nat, scores@[best as int]));
            }
            Some(
                EmittedBlob { key: "prediction".to_string(), value, kind: EmitKind::Unencrypted },
            )
        },
        None => None,
    }
}

// ---------------------------------------------------------------------------
// Laws
// ---------------------------------------------------------------------------

/// What a concatenating session holds after some writes.
pub open spec fn after_writes(before: Seq<u8>, writes: Seq<Seq<u8>>) -> Seq<u8>
    decreases writes.len(),
{
    if writes.len() == 0 {
        before
    } else {
        after_writes(before, writes.drop_last()) + writes.last()
    }
}

/// How a plaintext is split into writes makes no difference to a concatenating
/// session: what it holds depends on the concatenation alone.
pub proof fn law_concat_ignores_chunking(before: Seq<u8>, writes: Seq<Seq<u8>>)
    ensures
        after_writes(before, writes) == before + writes.flatten(),
    decreases writes.len(),
{
    if writes.len() == 0 {
        assert(before + writes.flatten() =~= before);
    } else {
        law_concat_ignores_chunking(before, writes.drop_last());
        writes.drop_last().lemma_flatten_push(writes.last());
        assert(writes.drop_last().push(writes.last()) =~= writes);
        assert(before + writes.flatten() =~= before + writes.drop_last().flatten()
            + writes.last());
    }
}

/// There is at most one best score, so that the prediction is determined by the
/// scores.
pub proof fn law_best_score_is_unique(scores: Seq<u32>, a: int, b: int)
    requires
        is_best(scores, a),
        is_best(scores, b),
    ensures
        a == b,
{
    assert(float_place(scores[a]) <= float_place(scores[b]));
    assert(float_place(scores[b]) <= float_place(scores[a]));
}

/// The little-endian form of a word is read as that word.
pub proof fn law_word_is_read_back(n: nat)
    requires
        n < 0x1_0000_0000,
    ensures
        le_words(canonical::le_bytes(n, 4)) == seq![n as u32],
{
    reveal_with_fuel(canonical::le_bytes, 5);
    let b = canonical::le_bytes(n, 4);
    assert(b.len() == 4);
    assert(b[0] == (n % 256) as u8);
    assert(b[1] == ((n / 256) % 256) as u8);
    assert(b[2] == ((n / 256 / 256) % 256) as u8);
    assert(b[3] == ((n / 256 / 256 / 256) % 256) as u8);
    assert(word_at(b, 0) == n);
    assert(le_words(b) =~= seq![n as u32]);
}

/// Words are read one after the other, and a rest of fewer than four bytes is left out.
pub proof fn law_words_follow_one_another(a: Seq<u8>, b: Seq<u8>)
    requires
        a.len() % 4 == 0,
    ensures
        le_words(a + b) == le_words(a) + le_words(b),
        b.len() < 4 ==> le_words(a + b) == le_words(a),
{
    let n = (a.len() / 4) as int;
    assert forall|i: int| 0 <= i < (a + b).len() / 4 implies le_words(a + b)[i] == (le_words(a)
        + le_words(b))[i] by {
        if i < n {
            assert(word_at(a + b, 4 * i) == word_at(a, 4 * i));
        } else {
            assert(4 * i == a.len() + 4 * (i - n));
            assert(word_at(a + b, 4 * i) == word_at(b, 4 * (i - n)));
        }
    }
    assert(le_words(a + b) =~= le_words(a) + le_words(b));
    if b.len() < 4 {
        assert(le_words(a + b) =~= le_words(a));
    }
}

proof fn lemma_word_sum_add(a: Seq<u32>, b: Seq<u32>)
    ensures
        word_sum(a + b) == word_sum(a) + word_sum(b),
    decreases b.len(),
{
    if b.len() == 0 {
        assert(a + b =~= a);
    } else {
        assert((a + b).drop_last() =~= a + b.drop_last());
        assert((a + b).last() == b.last());
        lemma_word_sum_add(a, b.drop_last());
    }
}

/// What is computed is the wrapping sum of the words of the input, as one word. Nothing
/// sums to zero, a word to itself, and two inputs in a row, where the first is made of
/// whole words, to the sum of what each of them comes to.
#[verifier::rlimit(40)]
pub proof fn law_computed_is_the_wrapping_sum(n: nat, a: Seq<u8>, b: Seq<u8>)
    requires
        n < 0x1_0000_0000,
        a.len() % 4 == 0,
    ensures
        computed(Seq::empty()) == seq![0u8, 0u8, 0u8, 0u8],
        computed(canonical::le_bytes(n, 4)) == canonical::le_bytes(n, 4),
        le_words(computed(a + b)).len() == 1,
        le_words(computed(a + b))[0] as int == (le_words(computed(a))[0] + le_words(
            computed(b),
        )[0]) % 0x1_0000_0000,
{
    let none = Seq::<u8>::empty();
    assert(computed(none) == seq![0u8, 0u8, 0u8, 0u8]) by {
        assert(le_words(none) =~= Seq::empty());
        assert(word_sum(le_words(none)) == 0);
        reveal_with_fuel(canonical::le_bytes, 5);
        assert(canonical::le_bytes(0, 4) =~= seq![0u8, 0u8, 0u8, 0u8]);
    }
    assert(computed(canonical::le_bytes(n, 4)) == canonical::le_bytes(n, 4)) by {
        law_word_is_read_back(n);
        let one = seq![n as u32];
        assert(one.drop_last() =~= Seq::<u32>::empty());
        assert(word_sum(one.drop_last()) == 0);
        assert(word_sum(one) == n);
        assert(n % 0x1_0000_0000 == n);
    }
    law_words_follow_one_another(a, b);
    lemma_word_sum_add(le_words(a), le_words(b));
    let x = word_sum(le_words(a));
    let y = word_sum(le_words(b));
    law_word_is_read_back(x % 0x1_0000_0000);
    law_word_is_read_back(y % 0x1_0000_0000);
    law_word_is_read_back((x + y) % 0x1_0000_0000);
    assert((x + y) % 0x1_0000_0000 == (x % 0x1_0000_0000 + y % 0x1_0000_0000) % 0x1_0000_0000);
}

/// Scores are compared as floats: of two positive ones the one with the greater bits is
/// greater, of two negative ones the one with the smaller bits, and a negative one is
/// smaller than any positive one.
pub proof fn law_scores_compare_as_floats(a: u32, b: u32)
    ensures
        a < 0x8000_0000 && b < 0x8000_0000 ==> (float_place(a) < float_place(b) <==> a < b),
        a >= 0x8000_0000 && b >= 0x8000_0000 ==> (float_place(a) < float_place(b) <==> b < a),
        a >= 0x8000_0000 && b < 0x8000_0000 ==> float_place(a) < float_place(b),
        a != b ==> float_place(a) != float_place(b),
{
}

/// The best score is the greatest; of equal ones it is the last.
pub proof fn law_best_score_is_the_last_greatest(scores: Seq<u32>, best: int, other: int)
    requires
        is_best(scores, best),
        0 <= other < scores.len(),
    ensures
        0 <= best < scores.len(),
        float_place(scores[other]) <= float_place(scores[best]),
        float_place(scores[other]) == float_place(scores[best]) ==> other <= best,
{
}

/// A prediction is two words: the digit and its score.
pub proof fn law_prediction_is_digit_and_score(digit: nat, score: u32)
    requires
        digit < 0x1_0000_0000,
    ensures
        prediction_bytes(digit, score).len() == 8,
        le_words(prediction_bytes(digit, score)) == seq![digit as u32, score],
{
    canonical::lemma_le_bytes_len(digit, 4);
    canonical::lemma_le_bytes_len(score as nat, 4);
    law_words_follow_one_another(
        canonical::le_bytes(digit, 4),
        canonical::le_bytes(score as nat, 4),
    );
    law_word_is_read_back(digit);
    law_word_is_read_back(score as nat);
    assert(seq![digit as u32] + seq![score] =~= seq![digit as u32, score]);
}

/// An image is 28 by 28 pixels.
pub proof fn law_image_is_square()
    ensures
        ROWS == 28,
        COLS == 28,
        PIXELS == ROWS * COLS,
{
}

} // verus!
