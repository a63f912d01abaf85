//! The streaming AEAD construction and the block framer.
//!
//! A payload is cut into blocks of [`BLOCK_SIZE`](crate::BLOCK_SIZE)
//! plaintext bytes; every full block is sealed as a non-last block and the
//! residue — possibly empty — is sealed as the last one. Each block's
//! 24-byte nonce is the 19-byte stream nonce followed by a big-endian
//! 32-bit block counter and a one-byte last-block flag, so reordering,
//! truncation and extension all break a tag. No framing metadata is stored:
//! the block size itself is the contract between encoder and decoder.

use vstd::arithmetic::div_mod::{
    lemma_div_multiples_vanish_fancy, lemma_fundamental_div_mod,
    lemma_fundamental_div_mod_converse,
};
use vstd::prelude::*;

use crate::bytes::be_bytes;
use crate::bytes::be_encode;
use crate::bytes::lemma_pow256_small;
use crate::crypto::aead_open;
use crate::crypto::aead_seal;
use crate::crypto::sealed_of;
use crate::{BLOCK_OVERHEAD, BLOCK_SIZE};

verus! {

/// `(x + 1) * m` laid out as one more `m`; the steps the block layout
/// arguments take.
pub proof fn lemma_mul_step(x: int, m: int)
    ensures
        (x + 1) * m == x * m + m,
        m * (x + 1) == m * x + m,
{
    vstd::arithmetic::mul::lemma_mul_is_distributive_add_other_way(m, x, 1);
    vstd::arithmetic::mul::lemma_mul_is_distributive_add(m, x, 1);
    vstd::arithmetic::mul::lemma_mul_basics(m);
    vstd::arithmetic::mul::lemma_mul_is_commutative(x, m);
    vstd::arithmetic::mul::lemma_mul_is_commutative(x + 1, m);
}

/// Most blocks a single stream may carry; with the default chunk limit the
/// store never holds more.
pub const MAX_STREAM_BLOCKS: usize = 128;

/// Largest plaintext the streaming encoder accepts.
pub const MAX_STREAM_PLAINTEXT: usize = MAX_STREAM_BLOCKS * BLOCK_SIZE;

/// Largest ciphertext the streaming decoder accepts: every block's tag and
/// one more for the (possibly empty) last block.
pub const MAX_STREAM_CIPHERTEXT: usize = MAX_STREAM_BLOCKS * (BLOCK_SIZE + BLOCK_OVERHEAD)
    + BLOCK_OVERHEAD;

/// The full 24-byte nonce of one block: stream nonce, big-endian 32-bit
/// counter, last-block flag.
pub open spec fn stream_nonce(nonce: Seq<u8>, counter: nat, last: bool) -> Seq<u8> {
    nonce + be_bytes(counter, 4) + seq![if last { 1u8 } else { 0u8 }]
}

/// The sealed blocks of `pt`, starting at block counter `counter`: one
/// non-last block for each full `BLOCK_SIZE` of plaintext, then the residue
/// as the last block.
pub open spec fn chunks_of(key: Seq<u8>, nonce: Seq<u8>, pt: Seq<u8>, counter: nat) -> Seq<
    Seq<u8>,
>
    decreases pt.len(),
{
    if pt.len() >= BLOCK_SIZE {
        seq![sealed_of(key, stream_nonce(nonce, counter, false), pt.take(BLOCK_SIZE as int))]
            + chunks_of(key, nonce, pt.skip(BLOCK_SIZE as int), counter + 1)
    } else {
        seq![sealed_of(key, stream_nonce(nonce, counter, true), pt)]
    }
}

/// Only the full, non-last blocks of `pt`.
pub open spec fn full_chunks_of(key: Seq<u8>, nonce: Seq<u8>, pt: Seq<u8>, counter: nat) -> Seq<
    Seq<u8>,
>
    decreases pt.len(),
{
    if pt.len() >= BLOCK_SIZE {
        seq![sealed_of(key, stream_nonce(nonce, counter, false), pt.take(BLOCK_SIZE as int))]
            + full_chunks_of(key, nonce, pt.skip(BLOCK_SIZE as int), counter + 1)
    } else {
        Seq::empty()
    }
}

/// The whole ciphertext stream: the sealed blocks, concatenated.
pub open spec fn stream_seal(key: Seq<u8>, nonce: Seq<u8>, pt: Seq<u8>) -> Seq<u8> {
    chunks_of(key, nonce, pt, 0).flatten()
}

/// That each sealed block of `pt` has its stated length: `BLOCK_OVERHEAD`
/// bytes over the plaintext. True of every actual sealing; recorded here so
/// that spec-level reasoning can locate block boundaries inside a stream.
pub open spec fn seal_lengths_ok(key: Seq<u8>, nonce: Seq<u8>, pt: Seq<u8>, counter: nat) -> bool
    decreases pt.len(),
{
    if pt.len() >= BLOCK_SIZE {
        sealed_of(key, stream_nonce(nonce, counter, false), pt.take(BLOCK_SIZE as int)).len()
            == BLOCK_SIZE + BLOCK_OVERHEAD && seal_lengths_ok(
            key,
            nonce,
            pt.skip(BLOCK_SIZE as int),
            counter + 1,
        )
    } else {
        sealed_of(key, stream_nonce(nonce, counter, true), pt).len() == pt.len() + BLOCK_OVERHEAD
    }
}

/// The views of a vector of byte vectors.
pub open spec fn chunk_views(chunks: Seq<Vec<u8>>) -> Seq<Seq<u8>> {
    chunks.map_values(|c: Vec<u8>| c@)
}

/// Splitting a plaintext at a block boundary splits its chunk sequence.
proof fn lemma_chunks_of_concat(key: Seq<u8>, nonce: Seq<u8>, a: Seq<u8>, z: Seq<u8>, counter: nat)
    requires
        (a.len() as int) % (BLOCK_SIZE as int) == 0,
    ensures
        chunks_of(key, nonce, a + z, counter) == full_chunks_of(key, nonce, a, counter)
            + chunks_of(key, nonce, z, counter + a.len() / (BLOCK_SIZE as nat)),
        full_chunks_of(key, nonce, a + z, counter) == full_chunks_of(key, nonce, a, counter)
            + full_chunks_of(key, nonce, z, counter + a.len() / (BLOCK_SIZE as nat)),
    decreases a.len(),
{
    let b = BLOCK_SIZE as int;
    if a.len() == 0 {
        assert(a + z =~= z);
        assert(a.len() / (BLOCK_SIZE as nat) == 0);
        assert(full_chunks_of(key, nonce, a, counter) =~= Seq::<Seq<u8>>::empty());
        assert(chunks_of(key, nonce, a + z, counter) =~= Seq::<Seq<u8>>::empty() + chunks_of(
            key,
            nonce,
            z,
            counter,
        ));
        assert(full_chunks_of(key, nonce, a + z, counter) =~= Seq::<Seq<u8>>::empty()
            + full_chunks_of(key, nonce, z, counter));
    } else {
        assert(a.len() >= BLOCK_SIZE) by {
            if a.len() < BLOCK_SIZE {
                vstd::arithmetic::div_mod::lemma_small_mod(a.len(), BLOCK_SIZE as nat);
            }
        }
        let k = (a.len() as int) / b;
        lemma_fundamental_div_mod(a.len() as int, b);
        assert(a.len() as int == b * k);
        assert((a + z).take(b) =~= a.take(b));
        assert((a + z).skip(b) =~= a.skip(b) + z);
        assert(a.skip(b).len() as int == (k - 1) * b + 0) by {
            lemma_mul_step(k - 1, b);
        }
        lemma_fundamental_div_mod_converse(a.skip(b).len() as int, b, k - 1, 0);
        lemma_chunks_of_concat(key, nonce, a.skip(b), z, counter + 1);
        assert(a.skip(b).len() / (BLOCK_SIZE as nat) + 1 == a.len() / (BLOCK_SIZE as nat));
        assert(chunks_of(key, nonce, a + z, counter) =~= full_chunks_of(key, nonce, a, counter)
            + chunks_of(key, nonce, z, counter + a.len() / (BLOCK_SIZE as nat)));
        assert(full_chunks_of(key, nonce, a + z, counter) =~= full_chunks_of(key, nonce, a, counter)
            + full_chunks_of(key, nonce, z, counter + a.len() / (BLOCK_SIZE as nat)));
    }
}

/// Where each block of a well-lengthed stream lies: block `i` occupies the
/// `i`-th ciphertext slot of `BLOCK_SIZE + BLOCK_OVERHEAD` bytes, and the
/// last block follows the full ones.
proof fn lemma_stream_layout(key: Seq<u8>, nonce: Seq<u8>, pt: Seq<u8>, counter: nat)
    requires
        seal_lengths_ok(key, nonce, pt, counter),
    ensures
        ({
            let b = BLOCK_SIZE as int;
            let c = (BLOCK_SIZE + BLOCK_OVERHEAD) as int;
            let n = pt.len() as int / b;
            let ss = chunks_of(key, nonce, pt, counter).flatten();
            &&& ss.len() == pt.len() + (n + 1) * (BLOCK_OVERHEAD as int)
            &&& forall|i: int|
                0 <= i < n ==> #[trigger] ss.subrange(i * c, (i + 1) * c) == sealed_of(
                    key,
                    stream_nonce(nonce, (counter + i) as nat, false),
                    pt.subrange(i * b, (i + 1) * b),
                )
            &&& ss.skip(n * c) == sealed_of(
                key,
                stream_nonce(nonce, (counter + n) as nat, true),
                pt.skip(n * b),
            )
        }),
    decreases pt.len(),
{
    let b = BLOCK_SIZE as int;
    let c = (BLOCK_SIZE + BLOCK_OVERHEAD) as int;
    let n = pt.len() as int / b;
    let cs = chunks_of(key, nonce, pt, counter);
    let ss = cs.flatten();
    lemma_fundamental_div_mod(pt.len() as int, b);
    vstd::arithmetic::div_mod::lemma_mod_bound(pt.len() as int, b);
    if pt.len() < BLOCK_SIZE {
        assert(n == 0) by {
            vstd::arithmetic::div_mod::lemma_basic_div(pt.len() as int, b);
        }
        cs.lemma_flatten_one_element();
        vstd::arithmetic::mul::lemma_mul_basics(b);
        vstd::arithmetic::mul::lemma_mul_basics(c);
        assert(n * c == 0 && n * b == 0 && (n + 1) * (BLOCK_OVERHEAD as int) == 16);
        assert(ss == sealed_of(key, stream_nonce(nonce, counter, true), pt));
        assert(ss.skip(0) =~= ss);
        assert(pt.skip(0) =~= pt);
    } else {
        let c0 = sealed_of(key, stream_nonce(nonce, counter, false), pt.take(b));
        let rest = chunks_of(key, nonce, pt.skip(b), counter + 1);
        assert(cs == seq![c0] + rest);
        assert(cs.first() == c0);
        assert(cs.drop_first() =~= rest);
        assert(ss == c0 + rest.flatten());
        lemma_stream_layout(key, nonce, pt.skip(b), counter + 1);
        let rss = rest.flatten();
        let rn = pt.skip(b).len() as int / b;
        lemma_fundamental_div_mod(pt.skip(b).len() as int, b);
        vstd::arithmetic::div_mod::lemma_mod_bound(pt.skip(b).len() as int, b);
        assert(rn == n - 1) by {
            let r = (pt.len() as int) % b;
            assert(pt.len() as int == b * n + r);
            assert(pt.skip(b).len() as int == b * (n - 1) + r) by {
                vstd::arithmetic::mul::lemma_mul_is_distributive_sub(b, n, 1);
            }
            lemma_div_multiples_vanish_fancy(n - 1, r, b);
        }
        assert(c0.len() == c);
        assert(rss.len() == pt.skip(b).len() + (rn + 1) * (BLOCK_OVERHEAD as int));
        assert(ss.len() == pt.len() + (n + 1) * (BLOCK_OVERHEAD as int));
        assert(b * n <= pt.len() as int);
        assert(b * rn <= pt.skip(b).len() as int);
        vstd::arithmetic::mul::lemma_mul_is_commutative(n, b);
        vstd::arithmetic::mul::lemma_mul_is_commutative(rn, b);
        assert(n * c <= ss.len()) by {
            vstd::arithmetic::mul::lemma_mul_is_distributive_add(n, b, 16);
            vstd::arithmetic::mul::lemma_mul_is_commutative(n, b);
            vstd::arithmetic::mul::lemma_mul_inequality(n, n + 1, 16);
        }
        assert(rn * c <= rss.len()) by {
            vstd::arithmetic::mul::lemma_mul_is_distributive_add(rn, b, 16);
            vstd::arithmetic::mul::lemma_mul_is_commutative(rn, b);
            vstd::arithmetic::mul::lemma_mul_inequality(rn, rn + 1, 16);
        }
        lemma_mul_step(rn, c);
        lemma_mul_step(rn, b);
        assert(n * c == rn * c + c);
        assert(n * b == rn * b + b);
        assert forall|i: int| 0 <= i < n implies #[trigger] ss.subrange(i * c, (i + 1) * c)
            == sealed_of(
            key,
            stream_nonce(nonce, (counter + i) as nat, false),
            pt.subrange(i * b, (i + 1) * b),
        ) by {
            if i == 0 {
                vstd::arithmetic::mul::lemma_mul_basics(b);
                vstd::arithmetic::mul::lemma_mul_basics(c);
                assert(i * b == 0 && (i + 1) * b == b && i * c == 0 && (i + 1) * c == c);
                assert(ss.subrange(0, c) =~= c0);
                assert(pt.subrange(0, b) =~= pt.take(b));
                assert(ss.subrange(i * c, (i + 1) * c) == ss.subrange(0, c));
                assert(pt.subrange(i * b, (i + 1) * b) == pt.subrange(0, b));
                assert((counter + i) as nat == counter);
                assert(ss.subrange(i * c, (i + 1) * c) == sealed_of(
                    key,
                    stream_nonce(nonce, (counter + i) as nat, false),
                    pt.subrange(i * b, (i + 1) * b),
                ));
            } else {
                let k = i - 1;
                lemma_mul_step(k, b);
                lemma_mul_step(k, c);
                lemma_mul_step(i, b);
                lemma_mul_step(i, c);
                vstd::arithmetic::mul::lemma_mul_inequality(i, n, b);
                vstd::arithmetic::mul::lemma_mul_inequality(i, n, c);
                vstd::arithmetic::mul::lemma_mul_inequality(k, rn, b);
                vstd::arithmetic::mul::lemma_mul_inequality(k, rn, c);
                vstd::arithmetic::mul::lemma_mul_inequality(rn, n, 16);
                vstd::arithmetic::mul::lemma_mul_inequality(i, rn, b);
                vstd::arithmetic::mul::lemma_mul_inequality(i, rn, c);
                vstd::arithmetic::mul::lemma_mul_inequality(i + 1, n, b);
                vstd::arithmetic::mul::lemma_mul_inequality(i + 1, n, c);
                assert(rss.subrange(k * c, (k + 1) * c) == sealed_of(
                    key,
                    stream_nonce(nonce, (counter + 1 + k) as nat, false),
                    pt.skip(b).subrange(k * b, (k + 1) * b),
                ));
                assert(pt.subrange(i * b, (i + 1) * b) =~= pt.skip(b).subrange(
                    k * b,
                    (k + 1) * b,
                ));
                assert(ss.subrange(i * c, (i + 1) * c) =~= rss.subrange(k * c, (k + 1) * c));
                assert((counter + 1 + k) as nat == (counter + i) as nat);
                assert(ss.subrange(i * c, (i + 1) * c) == sealed_of(
                    key,
                    stream_nonce(nonce, (counter + i) as nat, false),
                    pt.subrange(i * b, (i + 1) * b),
                ));
            }
        }
        assert(ss.skip(n * c) =~= rss.skip(rn * c));
        assert(pt.skip(n * b) =~= pt.skip(b).skip(rn * b));
        assert((counter + n) as nat == ((counter + 1) + rn) as nat);
    }
}

/// Concatenates downloaded chunks into the single ciphertext stream the
/// decoder takes.
pub fn concat_chunks(chunks: &Vec<Vec<u8>>) -> (r: Vec<u8>)
    ensures
        r@ == chunk_views(chunks@).flatten(),
{
    let mut out: Vec<u8> = Vec::new();
    let mut i: usize = 0;
    proof {
        assert(chunk_views(chunks@.take(0)) =~= Seq::<Seq<u8>>::empty());
        assert(Seq::<Seq<u8>>::empty().flatten() =~= Seq::<u8>::empty());
    }
    while i < chunks.len()
        invariant
            i <= chunks@.len(),
            out@ == chunk_views(chunks@.take(i as int)).flatten(),
        decreases chunks@.len() - i,
    {
        let chunk = &chunks[i];
        let mut copy = vstd::slice::slice_to_vec(chunk.as_slice());
        out.append(&mut copy);
        proof {
            let prev = chunk_views(chunks@.take(i as int));
            assert(chunk_views(chunks@.take(i + 1)) =~= prev.push(chunks@[i as int]@));
            prev.lemma_flatten_push(chunks@[i as int]@);
        }
        i = i + 1;
    }
    proof {
        assert(chunks@.take(chunks@.len() as int) =~= chunks@);
    }
    out
}

/// Builds the 24-byte nonce of one block.
fn block_nonce(nonce: &[u8], counter: u32, last: bool) -> (r: Vec<u8>)
    requires
        nonce@.len() == 19,
    ensures
        r@ == stream_nonce(nonce@, counter as nat, last),
        r@.len() == 24,
{
    proof {
        lemma_pow256_small();
    }
    let mut out: Vec<u8> = vstd::slice::slice_to_vec(nonce);
    let mut ctr = be_encode(counter as u64, 4);
    out.append(&mut ctr);
    out.push(if last { 1 } else { 0 });
    proof {
        assert(out@ =~= stream_nonce(nonce@, counter as nat, last));
    }
    out
}

/// Encrypts a payload as a stream of sealed blocks: every full block
/// non-last, the residue — possibly empty — last. One returned chunk is one
/// block's ciphertext, in upload order.
pub fn encrypt_stream(key: &[u8], nonce: &[u8], pt: &[u8]) -> (chunks: Vec<Vec<u8>>)
    requires
        key@.len() == 32,
        nonce@.len() == 19,
        pt@.len() <= MAX_STREAM_PLAINTEXT,
    ensures
        chunk_views(chunks@) == chunks_of(key@, nonce@, pt@, 0),
        seal_lengths_ok(key@, nonce@, pt@, 0),
        chunks@.len() == (pt@.len() as int) / (BLOCK_SIZE as int) + 1,
{
    let mut chunks: Vec<Vec<u8>> = Vec::new();
    let mut i: usize = 0;
    let mut off: usize = 0;
    proof {
        vstd::arithmetic::mul::lemma_mul_basics(BLOCK_SIZE as int);
        assert(pt@.skip(0) =~= pt@);
        assert(chunk_views(chunks@) =~= Seq::<Seq<u8>>::empty());
        assert(Seq::<Seq<u8>>::empty() + chunks_of(key@, nonce@, pt@, 0) =~= chunks_of(
            key@,
            nonce@,
            pt@,
            0,
        ));
    }
    while pt.len() - off >= BLOCK_SIZE
        invariant
            key@.len() == 32,
            nonce@.len() == 19,
            pt@.len() <= MAX_STREAM_PLAINTEXT,
            off == i * BLOCK_SIZE,
            off <= pt@.len(),
            i <= MAX_STREAM_BLOCKS,
            chunks@.len() == i,
            chunk_views(chunks@) + chunks_of(key@, nonce@, pt@.skip(off as int), i as nat)
                == chunks_of(key@, nonce@, pt@, 0),
            seal_lengths_ok(key@, nonce@, pt@.skip(off as int), i as nat) ==> seal_lengths_ok(
                key@,
                nonce@,
                pt@,
                0,
            ),
        decreases pt@.len() - off,
    {
        let nonce24 = block_nonce(nonce, i as u32, false);
        let block = vstd::slice::slice_subrange(pt, off, off + BLOCK_SIZE);
        let sealed = aead_seal(key, nonce24.as_slice(), block);
        let ghost prev = chunks@;
        chunks.push(sealed);
        proof {
            let remaining = pt@.skip(off as int);
            assert(block@ =~= remaining.take(BLOCK_SIZE as int));
            assert(remaining.skip(BLOCK_SIZE as int) =~= pt@.skip((off + BLOCK_SIZE) as int));
            assert(chunk_views(chunks@) =~= chunk_views(prev).push(sealed@));
            assert(chunk_views(prev).push(sealed@) + chunks_of(
                key@,
                nonce@,
                pt@.skip((off + BLOCK_SIZE) as int),
                (i + 1) as nat,
            ) =~= chunk_views(prev) + chunks_of(key@, nonce@, remaining, i as nat));
            lemma_mul_step(i as int, BLOCK_SIZE as int);
            assert(i + 1 <= MAX_STREAM_BLOCKS) by {
                if i + 1 > MAX_STREAM_BLOCKS {
                    vstd::arithmetic::mul::lemma_mul_inequality(
                        MAX_STREAM_BLOCKS as int + 1,
                        i as int + 1,
                        BLOCK_SIZE as int,
                    );
                }
            }
        }
        off = off + BLOCK_SIZE;
        i = i + 1;
    }
    let nonce24 = block_nonce(nonce, i as u32, true);
    let block = vstd::slice::slice_subrange(pt, off, pt.len());
    let sealed = aead_seal(key, nonce24.as_slice(), block);
    let ghost prev = chunks@;
    chunks.push(sealed);
    proof {
        let remaining = pt@.skip(off as int);
        assert(block@ =~= remaining);
        assert(chunks_of(key@, nonce@, remaining, i as nat) =~= seq![sealed@]);
        assert(chunk_views(chunks@) =~= chunk_views(prev).push(sealed@));
        assert(chunk_views(prev).push(sealed@) =~= chunk_views(prev) + seq![sealed@]);
        assert(chunk_views(chunks@) == chunks_of(key@, nonce@, pt@, 0));
        lemma_fundamental_div_mod_converse(
            pt@.len() as int,
            BLOCK_SIZE as int,
            i as int,
            pt@.len() - off,
        );
    }
    chunks
}

/// The hypothesis under which a ciphertext must decrypt: it is the sealing
/// of a bounded payload `q` whose blocks have their stated lengths.
pub open spec fn is_sealed_stream(key: Seq<u8>, nonce: Seq<u8>, ct: Seq<u8>, q: Seq<u8>) -> bool {
    &&& q.len() <= MAX_STREAM_PLAINTEXT
    &&& seal_lengths_ok(key, nonce, q, 0)
    &&& ct == stream_seal(key, nonce, q)
}

/// For a sealed stream of `q`, where the decoder's counters land: the chunk
/// count of the ciphertext agrees with the block count of `q`.
proof fn lemma_sealed_stream_counts(key: Seq<u8>, nonce: Seq<u8>, ct: Seq<u8>, q: Seq<u8>)
    requires
        is_sealed_stream(key, nonce, ct, q),
    ensures
        ({
            let b = BLOCK_SIZE as int;
            let c = (BLOCK_SIZE + BLOCK_OVERHEAD) as int;
            let nq = q.len() as int / b;
            &&& (ct.len() as int) / c == nq
            &&& 0 <= nq <= MAX_STREAM_BLOCKS
            &&& ct.len() == q.len() + (nq + 1) * (BLOCK_OVERHEAD as int)
        }),
{
    let b = BLOCK_SIZE as int;
    let c = (BLOCK_SIZE + BLOCK_OVERHEAD) as int;
    let nq = q.len() as int / b;
    lemma_stream_layout(key, nonce, q, 0);
    lemma_fundamental_div_mod(q.len() as int, b);
    vstd::arithmetic::div_mod::lemma_mod_bound(q.len() as int, b);
    assert(nq <= MAX_STREAM_BLOCKS as int) by {
        if nq > MAX_STREAM_BLOCKS as int {
            vstd::arithmetic::mul::lemma_mul_inequality(MAX_STREAM_BLOCKS as int + 1, nq, b);
        }
    }
    vstd::arithmetic::div_mod::lemma_div_pos_is_pos(q.len() as int, b);
    assert(ct.len() as int == c * nq + ((q.len() as int) % b + BLOCK_OVERHEAD as int)) by {
        vstd::arithmetic::mul::lemma_mul_is_distributive_add(nq, b, BLOCK_OVERHEAD as int);
        vstd::arithmetic::mul::lemma_mul_is_commutative(nq, c);
        lemma_mul_step(nq, BLOCK_OVERHEAD as int);
    }
    lemma_fundamental_div_mod_converse(
        ct.len() as int,
        c,
        nq,
        (q.len() as int) % b + BLOCK_OVERHEAD as int,
    );
}

/// Decrypts a ciphertext stream. Succeeds exactly on streams produced by
/// [`encrypt_stream`] under the same key and nonce, and then returns the
/// payload that was sealed; on anything else — a flipped bit, a missing or
/// reordered block, a truncated or extended stream — it fails, and no
/// partial plaintext is surfaced.
pub fn decrypt_stream(key: &[u8], nonce: &[u8], ct: &[u8]) -> (r: Option<Vec<u8>>)
    requires
        key@.len() == 32,
        nonce@.len() == 19,
    ensures
        r matches Some(pt) ==> ct@ == stream_seal(key@, nonce@, pt@),
        forall|q: Seq<u8>| is_sealed_stream(key@, nonce@, ct@, q) ==> r is Some && r->0@ == q,
{
    let total = ct.len();
    if total > MAX_STREAM_CIPHERTEXT {
        proof {
            assert forall|q: Seq<u8>| is_sealed_stream(key@, nonce@, ct@, q) implies false by {
                lemma_sealed_stream_counts(key@, nonce@, ct@, q);
                let b = BLOCK_SIZE as int;
                let nq = q.len() as int / b;
                vstd::arithmetic::mul::lemma_mul_inequality(
                    nq + 1,
                    MAX_STREAM_BLOCKS as int + 1,
                    BLOCK_OVERHEAD as int,
                );
            }
        }
        return None;
    }
    let chunk_len = BLOCK_SIZE + BLOCK_OVERHEAD;
    let n_full = total / chunk_len;
    let mut out: Vec<u8> = Vec::new();
    let mut i: usize = 0;
    let mut coff: usize = 0;
    proof {
        vstd::arithmetic::div_mod::lemma_mod_bound(total as int, chunk_len as int);
        lemma_fundamental_div_mod(total as int, chunk_len as int);
        vstd::arithmetic::mul::lemma_mul_is_commutative(n_full as int, chunk_len as int);
        assert(n_full <= MAX_STREAM_BLOCKS) by {
            if n_full > MAX_STREAM_BLOCKS {
                vstd::arithmetic::mul::lemma_mul_inequality(
                    MAX_STREAM_BLOCKS as int + 1,
                    n_full as int,
                    chunk_len as int,
                );
            }
        }
        vstd::arithmetic::mul::lemma_mul_basics(BLOCK_SIZE as int);
        vstd::arithmetic::mul::lemma_mul_basics(chunk_len as int);
        assert(ct@.take(0) =~= Seq::<u8>::empty());
        assert(full_chunks_of(key@, nonce@, Seq::<u8>::empty(), 0).flatten() =~= Seq::<
            u8,
        >::empty());
        assert forall|q: Seq<u8>| is_sealed_stream(key@, nonce@, ct@, q) implies out@ == q.take(
            (0 * BLOCK_SIZE) as int,
        ) by {
            assert(q.take(0int) =~= Seq::<u8>::empty());
        }
    }
    while i < n_full
        invariant
            key@.len() == 32,
            nonce@.len() == 19,
            ct@.len() == total <= MAX_STREAM_CIPHERTEXT,
            chunk_len == BLOCK_SIZE + BLOCK_OVERHEAD,
            n_full == total as int / chunk_len as int,
            n_full * chunk_len <= total,
            n_full <= MAX_STREAM_BLOCKS,
            i <= n_full,
            coff == i * chunk_len,
            out@.len() == i * BLOCK_SIZE,
            ct@.take(coff as int) == full_chunks_of(key@, nonce@, out@, 0).flatten(),
            forall|q: Seq<u8>|
                is_sealed_stream(key@, nonce@, ct@, q) ==> out@ == q.take((i * BLOCK_SIZE) as int),
        decreases n_full - i,
    {
        proof {
            vstd::arithmetic::mul::lemma_mul_inequality(i as int + 1, n_full as int, chunk_len as int);
            lemma_mul_step(i as int, chunk_len as int);
            vstd::arithmetic::mul::lemma_mul_is_commutative(n_full as int, chunk_len as int);
        }
        let nonce24 = block_nonce(nonce, i as u32, false);
        let buffer = vstd::slice::slice_subrange(ct, coff, coff + chunk_len);
        let opened = aead_open(key, nonce24.as_slice(), buffer);
        proof {
            assert forall|q: Seq<u8>| is_sealed_stream(key@, nonce@, ct@, q) implies opened
                is Some && opened->0@ == q.subrange(
                (i * BLOCK_SIZE) as int,
                (i * BLOCK_SIZE + BLOCK_SIZE) as int,
            ) by {
                lemma_sealed_stream_counts(key@, nonce@, ct@, q);
                lemma_stream_layout(key@, nonce@, q, 0);
                lemma_mul_step(i as int, BLOCK_SIZE as int);
                let b = BLOCK_SIZE as int;
                let nq = (q.len() as int) / b;
                lemma_fundamental_div_mod(q.len() as int, b);
                vstd::arithmetic::div_mod::lemma_mod_bound(q.len() as int, b);
                vstd::arithmetic::mul::lemma_mul_inequality(i as int + 1, nq, b);
                vstd::arithmetic::mul::lemma_mul_is_commutative(nq, b);
                assert(q.subrange((i * BLOCK_SIZE) as int, ((i + 1) * BLOCK_SIZE) as int).len()
                    == BLOCK_SIZE);
                assert(buffer@ == ct@.subrange(
                    (i * chunk_len) as int,
                    ((i + 1) * chunk_len) as int,
                ));
                assert(stream_seal(key@, nonce@, q).subrange(
                    (i * chunk_len) as int,
                    ((i + 1) * chunk_len) as int,
                ) == sealed_of(
                    key@,
                    stream_nonce(nonce@, i as nat, false),
                    q.subrange((i * BLOCK_SIZE) as int, ((i + 1) * BLOCK_SIZE) as int),
                ));
                assert(q.subrange((i * BLOCK_SIZE) as int, ((i + 1) * BLOCK_SIZE) as int) =~= q
                    .subrange((i * BLOCK_SIZE) as int, (i * BLOCK_SIZE + BLOCK_SIZE) as int));
            }
        }
        match opened {
            Some(mut pt_block) => {
                let ghost prev = out@;
                let ghost ptb = pt_block@;
                out.append(&mut pt_block);
                proof {
                    assert(ptb.len() == BLOCK_SIZE) by {
                        assert(buffer@.len() == chunk_len);
                    }
                    assert(prev.len() as int % (BLOCK_SIZE as int) == 0) by {
                        vstd::arithmetic::div_mod::lemma_mod_multiples_basic(
                            i as int,
                            BLOCK_SIZE as int,
                        );
                        vstd::arithmetic::mul::lemma_mul_is_commutative(i as int, BLOCK_SIZE as int);
                    }
                    lemma_chunks_of_concat(key@, nonce@, prev, ptb, 0);
                    assert(prev.len() / (BLOCK_SIZE as nat) == i) by {
                        vstd::arithmetic::div_mod::lemma_div_by_multiple(
                            i as int,
                            BLOCK_SIZE as int,
                        );
                    }
                    assert(ptb.take(BLOCK_SIZE as int) =~= ptb);
                    assert(ptb.skip(BLOCK_SIZE as int) =~= Seq::<u8>::empty());
                    assert(full_chunks_of(
                        key@,
                        nonce@,
                        ptb.skip(BLOCK_SIZE as int),
                        (i + 1) as nat,
                    ) =~= Seq::<Seq<u8>>::empty());
                    assert(buffer@ == sealed_of(
                        key@,
                        stream_nonce(nonce@, i as nat, false),
                        ptb,
                    ));
                    assert(full_chunks_of(key@, nonce@, ptb, i as nat) =~= seq![buffer@]);
                    let fc = full_chunks_of(key@, nonce@, prev, 0);
                    assert(full_chunks_of(key@, nonce@, out@, 0) =~= fc.push(buffer@));
                    fc.lemma_flatten_push(buffer@);
                    assert(ct@.take((coff + chunk_len) as int) =~= ct@.take(coff as int)
                        + buffer@);
                    lemma_mul_step(i as int, BLOCK_SIZE as int);
                    assert forall|q: Seq<u8>| is_sealed_stream(key@, nonce@, ct@, q) implies out@
                        == q.take(((i + 1) * BLOCK_SIZE) as int) by {
                        lemma_sealed_stream_counts(key@, nonce@, ct@, q);
                        let nq = (q.len() as int) / (BLOCK_SIZE as int);
                        lemma_fundamental_div_mod(q.len() as int, BLOCK_SIZE as int);
                        vstd::arithmetic::div_mod::lemma_mod_bound(q.len() as int, BLOCK_SIZE as int);
                        vstd::arithmetic::mul::lemma_mul_inequality(
                            i as int + 1,
                            nq,
                            BLOCK_SIZE as int,
                        );
                        vstd::arithmetic::mul::lemma_mul_is_commutative(nq, BLOCK_SIZE as int);
                        assert(out@ =~= q.take((i * BLOCK_SIZE) as int) + q.subrange(
                            (i * BLOCK_SIZE) as int,
                            (i * BLOCK_SIZE + BLOCK_SIZE) as int,
                        ));
                        assert(q.take((i * BLOCK_SIZE) as int) + q.subrange(
                            (i * BLOCK_SIZE) as int,
                            (i * BLOCK_SIZE + BLOCK_SIZE) as int,
                        ) =~= q.take((i * BLOCK_SIZE + BLOCK_SIZE) as int));
                    }
                }
                coff = coff + chunk_len;
                i = i + 1;
            },
            None => {
                return None;
            },
        }
    }
    let nonce24 = block_nonce(nonce, n_full as u32, true);
    let residual = vstd::slice::slice_subrange(ct, coff, total);
    let opened = aead_open(key, nonce24.as_slice(), residual);
    proof {
        assert(residual@ =~= ct@.skip(coff as int));
        assert forall|q: Seq<u8>| is_sealed_stream(key@, nonce@, ct@, q) implies opened is Some
            && opened->0@ == q.skip((n_full * BLOCK_SIZE) as int) by {
            lemma_sealed_stream_counts(key@, nonce@, ct@, q);
            lemma_stream_layout(key@, nonce@, q, 0);
            let b = BLOCK_SIZE as int;
            let nq = (q.len() as int) / b;
            lemma_fundamental_div_mod(q.len() as int, b);
            vstd::arithmetic::div_mod::lemma_mod_bound(q.len() as int, b);
            vstd::arithmetic::mul::lemma_mul_is_commutative(nq, b);
            assert(q.skip((n_full * BLOCK_SIZE) as int).len() < BLOCK_SIZE);
            assert(stream_seal(key@, nonce@, q).skip((n_full * chunk_len) as int) == sealed_of(
                key@,
                stream_nonce(nonce@, n_full as nat, true),
                q.skip((n_full * BLOCK_SIZE) as int),
            ));
        }
    }
    match opened {
        Some(mut pt_last) => {
            let ghost prev = out@;
            let ghost ptl = pt_last@;
            out.append(&mut pt_last);
            proof {
                assert(prev.len() as int % (BLOCK_SIZE as int) == 0) by {
                    vstd::arithmetic::div_mod::lemma_mod_multiples_basic(
                        n_full as int,
                        BLOCK_SIZE as int,
                    );
                    vstd::arithmetic::mul::lemma_mul_is_commutative(
                        n_full as int,
                        BLOCK_SIZE as int,
                    );
                }
                assert(ptl.len() < BLOCK_SIZE) by {
                    vstd::arithmetic::div_mod::lemma_mod_bound(total as int, chunk_len as int);
                    lemma_fundamental_div_mod(total as int, chunk_len as int);
                    vstd::arithmetic::mul::lemma_mul_is_commutative(n_full as int, chunk_len as int);
                    assert(residual@.len() == total - coff);
                }
                lemma_chunks_of_concat(key@, nonce@, prev, ptl, 0);
                assert(prev.len() / (BLOCK_SIZE as nat) == n_full) by {
                    vstd::arithmetic::div_mod::lemma_div_by_multiple(
                        n_full as int,
                        BLOCK_SIZE as int,
                    );
                }
                assert(chunks_of(key@, nonce@, ptl, n_full as nat) =~= seq![residual@]);
                let fc = full_chunks_of(key@, nonce@, prev, 0);
                assert(chunks_of(key@, nonce@, out@, 0) =~= fc.push(residual@));
                fc.lemma_flatten_push(residual@);
                assert(ct@ =~= ct@.take(coff as int) + residual@);
                assert(ct@ == stream_seal(key@, nonce@, out@));
                assert forall|q: Seq<u8>| is_sealed_stream(key@, nonce@, ct@, q) implies out@
                    == q by {
                    lemma_sealed_stream_counts(key@, nonce@, ct@, q);
                    let nq = (q.len() as int) / (BLOCK_SIZE as int);
                    lemma_fundamental_div_mod(q.len() as int, BLOCK_SIZE as int);
                    vstd::arithmetic::div_mod::lemma_mod_bound(q.len() as int, BLOCK_SIZE as int);
                    vstd::arithmetic::mul::lemma_mul_is_commutative(nq, BLOCK_SIZE as int);
                    assert(out@ =~= q.take((n_full * BLOCK_SIZE) as int) + q.skip(
                        (n_full * BLOCK_SIZE) as int,
                    ));
                    assert(q.take((n_full * BLOCK_SIZE) as int) + q.skip(
                        (n_full * BLOCK_SIZE) as int,
                    ) =~= q);
                }
            }
            Some(out)
        },
        None => {
            None
        },
    }
}

} // verus!
