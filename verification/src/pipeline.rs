//! The cipher and integrity pipeline.
//!
//! A byte stream is encrypted in fixed-size chunks. Each chunk's
//! ciphertext is prefixed by its 4-byte little-endian length; a 32-byte
//! keyed integrity tag over the whole framed stream is appended. Opening
//! a blob checks the tag first, then walks the frames, decrypting each
//! chunk and concatenating the plaintext in order.
//!
//! Key material is always resolved through the key vault by object
//! identifier; callers never pass raw keys to this component.

use vstd::prelude::*;
use crate::StorageError;
use crate::bytes::append_bytes;
use crate::bytes::append_le32;
use crate::bytes::bytes_eq;
use crate::bytes::copy_range;
use crate::bytes::le32_bytes;
use crate::bytes::le32_val;
use crate::bytes::lemma_le32_roundtrip;
use crate::bytes::read_le32;
use crate::crypto::aes128_cbc_dec;
use crate::crypto::aes128_cbc_enc;
use crate::crypto::decrypt_aes128_cbc;
use crate::crypto::encrypt_aes128_cbc;
use crate::crypto::hmac_sha256;
use crate::crypto::hmac_sha256_of;
use crate::vault::KeyData;
use crate::vault::KeyVault;
use crate::vault::kek_of;
use crate::vault::unseal_key;
use crate::vault::vault_find;
use vstd::string::StringSliceAdditionalSpecFns;

verus! {

/// The length of the trailing integrity tag.
pub const TAG_LENGTH: usize = 32;

/// The default size of the cipher's internal chunks.
pub const DEFAULT_CHUNK_SIZE: usize = 10 * 1024 * 1024;

/// The largest accepted chunk size: the padded ciphertext of a chunk must
/// still have a length expressible in the 4-byte prefix.
pub const MAX_CHUNK_SIZE: usize = 0xFFFF_FF00;

/// `data` cut into chunks of `size` bytes, the last possibly shorter.
pub open spec fn chunks_of(data: Seq<u8>, size: nat) -> Seq<Seq<u8>>
    decreases data.len(),
    when size >= 1
{
    if data.len() == 0 {
        Seq::empty()
    } else if data.len() <= size {
        seq![data]
    } else {
        seq![data.take(size as int)] + chunks_of(data.skip(size as int), size)
    }
}

pub proof fn lemma_chunks_flatten(data: Seq<u8>, size: nat)
    requires
        size >= 1,
    ensures
        chunks_of(data, size).flatten() == data,
    decreases data.len(),
{
    if data.len() == 0 {
        assert(chunks_of(data, size).flatten() =~= data);
    } else if data.len() <= size {
        assert(chunks_of(data, size) =~= seq![data]);
        seq![data].lemma_flatten_one_element();
    } else {
        let head = data.take(size as int);
        let tail = data.skip(size as int);
        lemma_chunks_flatten(tail, size);
        let cs = chunks_of(data, size);
        assert(cs[0] == head);
        assert(cs.drop_first() =~= chunks_of(tail, size));
        assert(cs.flatten() == head + chunks_of(tail, size).flatten());
        assert(head + tail =~= data);
    }
}

pub proof fn lemma_chunks_bounded(data: Seq<u8>, size: nat)
    requires
        size >= 1,
    ensures
        forall|j: int| 0 <= j < chunks_of(data, size).len() ==> #[trigger] chunks_of(
            data,
            size,
        )[j].len() <= size,
    decreases data.len(),
{
    if data.len() == 0 {
    } else if data.len() <= size {
    } else {
        let tail = data.skip(size as int);
        lemma_chunks_bounded(tail, size);
        let cs = chunks_of(data, size);
        assert forall|j: int| 0 <= j < cs.len() implies #[trigger] cs[j].len() <= size by {
            if j > 0 {
                assert(cs[j] == chunks_of(tail, size)[j - 1]);
            }
        }
    }
}

/// Each chunk's ciphertext, prefixed by its 4-byte length, in order.
pub open spec fn frames(cts: Seq<Seq<u8>>) -> Seq<u8>
    decreases cts.len(),
{
    if cts.len() == 0 {
        Seq::empty()
    } else {
        le32_bytes(cts[0].len()) + cts[0] + frames(cts.drop_first())
    }
}

pub proof fn lemma_frames_snoc(cts: Seq<Seq<u8>>, ct: Seq<u8>)
    ensures
        frames(cts.push(ct)) == frames(cts) + le32_bytes(ct.len()) + ct,
    decreases cts.len(),
{
    if cts.len() == 0 {
        assert(cts.push(ct)[0] == ct);
        assert(cts.push(ct).drop_first() =~= Seq::<Seq<u8>>::empty());
        assert(frames(Seq::<Seq<u8>>::empty()) == Seq::<u8>::empty());
        assert(frames(cts.push(ct)) == le32_bytes(ct.len()) + ct + frames(
            Seq::<Seq<u8>>::empty(),
        ));
        assert(frames(cts.push(ct)) =~= frames(cts) + le32_bytes(ct.len()) + ct);
    } else {
        assert(cts.push(ct)[0] == cts[0]);
        assert(cts.push(ct).drop_first() =~= cts.drop_first().push(ct));
        lemma_frames_snoc(cts.drop_first(), ct);
        assert(frames(cts.push(ct)) =~= frames(cts) + le32_bytes(ct.len()) + ct);
    }
}

/// The ciphertext chunks of `data` under `(key, iv)`.
pub open spec fn cipher_chunks(key: Seq<u8>, iv: Seq<u8>, data: Seq<u8>, size: nat) -> Seq<
    Seq<u8>,
> {
    chunks_of(data, size).map_values(|c: Seq<u8>| aes128_cbc_enc(key, iv, c))
}

/// The framed ciphertext stream of `data`, before the tag.
pub open spec fn sealed_stream(key: Seq<u8>, iv: Seq<u8>, data: Seq<u8>, size: nat) -> Seq<u8> {
    frames(cipher_chunks(key, iv, data, size))
}

/// A whole sealed blob: the framed stream, then the 32-byte tag over it.
pub open spec fn sealed_data_blob(key: Seq<u8>, iv: Seq<u8>, data: Seq<u8>, size: nat) -> Seq<
    u8,
> {
    sealed_stream(key, iv, data, size) + hmac_sha256_of(key, sealed_stream(key, iv, data, size))
}

/// Walking a framed stream: read a 4-byte length, decrypt that many
/// bytes, continue. Fewer than four trailing bytes end the walk; a length
/// that runs past the buffer, or a chunk the cipher rejects, is a
/// framing failure.
pub open spec fn parse_stream(key: Seq<u8>, iv: Seq<u8>, s: Seq<u8>) -> Option<Seq<u8>>
    decreases s.len(),
{
    if s.len() < 4 {
        Some(Seq::empty())
    } else {
        let n = le32_val(s.subrange(0, 4));
        if 4 + n > s.len() {
            None
        } else {
            match aes128_cbc_dec(key, iv, s.subrange(4, 4 + n as int)) {
                None => None,
                Some(p) => match parse_stream(key, iv, s.skip(4 + n as int)) {
                    None => None,
                    Some(rest) => Some(p + rest),
                },
            }
        }
    }
}

/// What opening a blob yields: the tag is split off and checked first;
/// only then is the stream walked.
pub open spec fn open_blob(key: Seq<u8>, iv: Seq<u8>, blob: Seq<u8>) -> Result<
    Seq<u8>,
    StorageError,
> {
    if blob.len() < 32 {
        Err(StorageError::Corruption)
    } else {
        let body = blob.take(blob.len() - 32);
        let tag = blob.skip(blob.len() - 32);
        if tag != hmac_sha256_of(key, body) {
            Err(StorageError::Integrity)
        } else {
            match parse_stream(key, iv, body) {
                None => Err(StorageError::Corruption),
                Some(p) => Ok(p),
            }
        }
    }
}

/// Parsing the framing of well-formed frames recovers every chunk: the
/// core of the round-trip argument.
pub proof fn lemma_parse_frames(key: Seq<u8>, iv: Seq<u8>, cts: Seq<Seq<u8>>, chunks: Seq<Seq<u8>>)
    requires
        cts.len() == chunks.len(),
        forall|j: int| 0 <= j < cts.len() ==> aes128_cbc_dec(key, iv, #[trigger] cts[j]) == Some(
            chunks[j],
        ),
        forall|j: int| 0 <= j < cts.len() ==> #[trigger] cts[j].len() < 0x1_0000_0000,
    ensures
        parse_stream(key, iv, frames(cts)) == Some(chunks.flatten()),
    decreases cts.len(),
{
    if cts.len() == 0 {
        assert(frames(cts).len() == 0);
        assert(chunks.flatten() =~= Seq::<u8>::empty());
    } else {
        let s = frames(cts);
        let n = cts[0].len();
        lemma_le32_roundtrip(n);
        assert(s =~= le32_bytes(n) + cts[0] + frames(cts.drop_first()));
        assert(le32_bytes(n).len() == 4);
        assert(s.len() >= 4 + n);
        assert(s.subrange(0, 4) =~= le32_bytes(n));
        assert(le32_val(s.subrange(0, 4)) == n);
        assert(s.subrange(4, 4 + n as int) =~= cts[0]);
        assert(s.skip(4 + n as int) =~= frames(cts.drop_first()));
        assert(aes128_cbc_dec(key, iv, cts[0]) == Some(chunks[0]));
        assert forall|j: int| 0 <= j < cts.drop_first().len() implies aes128_cbc_dec(
            key,
            iv,
            #[trigger] cts.drop_first()[j],
        ) == Some(chunks.drop_first()[j]) by {
            assert(cts.drop_first()[j] == cts[j + 1]);
            assert(chunks.drop_first()[j] == chunks[j + 1]);
        }
        assert forall|j: int| 0 <= j < cts.drop_first().len() implies #[trigger] cts.drop_first()[j].len()
            < 0x1_0000_0000 by {
            assert(cts.drop_first()[j] == cts[j + 1]);
        }
        lemma_parse_frames(key, iv, cts.drop_first(), chunks.drop_first());
        assert(parse_stream(key, iv, s) == Some(chunks[0] + chunks.drop_first().flatten()));
        assert(chunks.flatten() == chunks[0] + chunks.drop_first().flatten());
    }
}

/// Cuts `data` into placement-sized pieces, the last possibly shorter.
pub fn split_into_chunks(data: &Vec<u8>, chunk_size: usize) -> (r: Vec<Vec<u8>>)
    requires
        chunk_size >= 1,
    ensures
        r.deep_view() == chunks_of(data@, chunk_size as nat),
{
    let ghost size = chunk_size as nat;
    let mut out: Vec<Vec<u8>> = Vec::new();
    let mut off: usize = 0;
    proof {
        assert(data@.skip(0) =~= data@);
        assert(out.deep_view() =~= Seq::<Seq<u8>>::empty());
    }
    while off < data.len()
        invariant
            chunk_size >= 1,
            size == chunk_size as nat,
            off <= data@.len(),
            chunks_of(data@, size) =~= out.deep_view() + chunks_of(data@.skip(off as int), size),
        decreases data@.len() - off,
    {
        let remaining = data.len() - off;
        let step = if remaining < chunk_size {
            remaining
        } else {
            chunk_size
        };
        let piece = copy_range(data, off, off + step);
        let ghost old_out = out.deep_view();
        let ghost rest = data@.skip(off as int);
        out.push(piece);
        proof {
            assert(out.deep_view() =~~= old_out.push(piece@));
            if rest.len() <= size {
                assert(piece@ =~= rest);
                assert(chunks_of(rest, size) =~= seq![rest]);
                assert(data@.skip(off as int + step as int) =~= Seq::<u8>::empty());
                assert(old_out.push(piece@) + chunks_of(
                    data@.skip(off as int + step as int),
                    size,
                ) =~= old_out + chunks_of(rest, size));
            } else {
                assert(piece@ =~= rest.take(size as int));
                assert(rest.skip(size as int) =~= data@.skip(off as int + step as int));
                assert(chunks_of(rest, size) =~= seq![rest.take(size as int)] + chunks_of(
                    rest.skip(size as int),
                    size,
                ));
                assert(old_out.push(piece@) + chunks_of(
                    data@.skip(off as int + step as int),
                    size,
                ) =~= old_out + chunks_of(rest, size));
            }
        }
        off = off + step;
    }
    proof {
        assert(data@.skip(off as int) =~= Seq::<u8>::empty());
        assert(chunks_of(data@, size) =~= out.deep_view());
    }
    out
}

/// Seals `data` under the given key material: framed chunked ciphertext
/// followed by the keyed tag. Opening the result under the same material
/// gives `data` back: that is stated here, proved from the cipher's own
/// inversion contract, and is the round-trip guarantee.
pub fn seal_bytes(material: &KeyData, data: &Vec<u8>, chunk_size: usize) -> (r: Vec<u8>)
    requires
        material.wf(),
        1 <= chunk_size <= MAX_CHUNK_SIZE,
    ensures
        r@ == sealed_data_blob(material@.key, material@.iv, data@, chunk_size as nat),
        open_blob(material@.key, material@.iv, r@) == Ok::<Seq<u8>, StorageError>(data@),
{
    let ghost key = material@.key;
    let ghost iv = material@.iv;
    let ghost size = chunk_size as nat;
    let ghost cc = cipher_chunks(key, iv, data@, size);
    let ghost ch = chunks_of(data@, size);
    proof {
        lemma_chunks_bounded(data@, size);
        lemma_chunks_flatten(data@, size);
    }
    let chunks = split_into_chunks(data, chunk_size);
    let mut stream: Vec<u8> = Vec::new();
    let mut i: usize = 0;
    proof {
        assert(cc.take(0) =~= Seq::<Seq<u8>>::empty());
        assert(stream@ =~= frames(cc.take(0)));
    }
    while i < chunks.len()
        invariant
            material.wf(),
            1 <= chunk_size <= MAX_CHUNK_SIZE,
            key == material@.key,
            iv == material@.iv,
            size == chunk_size as nat,
            cc == cipher_chunks(key, iv, data@, size),
            ch == chunks_of(data@, size),
            chunks.deep_view() == ch,
            cc.len() == ch.len(),
            i <= chunks@.len(),
            chunks@.len() == ch.len(),
            forall|j: int| 0 <= j < ch.len() ==> #[trigger] ch[j].len() <= size,
            stream@ == frames(cc.take(i as int)),
            forall|j: int| 0 <= j < i ==> aes128_cbc_dec(key, iv, #[trigger] cc[j]) == Some(ch[j]),
            forall|j: int| 0 <= j < i ==> #[trigger] cc[j].len() < 0x1_0000_0000,
        decreases chunks@.len() - i,
    {
        proof {
            assert(chunks.deep_view()[i as int] == chunks@[i as int]@);
            assert(chunks@[i as int]@ == ch[i as int]);
        }
        let ct = encrypt_aes128_cbc(
            material.key.as_slice(),
            material.iv.as_slice(),
            chunks[i].as_slice(),
        );
        proof {
            assert(ct@ == aes128_cbc_enc(key, iv, ch[i as int]));
            assert(cc[i as int] == aes128_cbc_enc(key, iv, ch[i as int]));
            assert(ch[i as int].len() <= size);
            assert(ct@.len() == (ch[i as int].len() / 16 + 1) * 16);
            assert((ch[i as int].len() / 16) * 16 <= ch[i as int].len());
            assert(ct@.len() <= ch[i as int].len() + 16);
            assert(ct@.len() < 0x1_0000_0000);
        }
        let ghost before = stream@;
        append_le32(&mut stream, ct.len() as u64);
        append_bytes(&mut stream, &ct);
        proof {
            lemma_frames_snoc(cc.take(i as int), cc[i as int]);
            assert(cc.take(i as int).push(cc[i as int]) =~= cc.take(i as int + 1));
            assert(stream@ =~= frames(cc.take(i as int + 1)));
        }
        i = i + 1;
    }
    proof {
        assert(cc.take(cc.len() as int) =~= cc);
        assert(stream@ == frames(cc));
        lemma_parse_frames(key, iv, cc, ch);
        assert(parse_stream(key, iv, stream@) == Some(data@));
    }
    let tag = hmac_sha256(material.key.as_slice(), stream.as_slice());
    let mut blob = stream;
    let ghost body = blob@;
    append_bytes(&mut blob, &tag);
    proof {
        assert(blob@.len() == body.len() + 32);
        assert(blob@.take(blob@.len() - 32) =~= body);
        assert(blob@.skip(blob@.len() - 32) =~= tag@);
        assert(blob@ =~= sealed_data_blob(key, iv, data@, size));
    }
    blob
}

/// Opens a sealed blob under the given key material. The verdict is
/// exactly `open_blob`'s: a short blob or bad framing is corruption, a
/// tag mismatch is an integrity failure, and otherwise the concatenated
/// plaintext comes back.
pub fn open_bytes(material: &KeyData, blob: &Vec<u8>) -> (r: Result<Vec<u8>, StorageError>)
    requires
        material.wf(),
    ensures
        match open_blob(material@.key, material@.iv, blob@) {
            Ok(p) => r matches Ok(d) && d@ == p,
            Err(e) => r == Err::<Vec<u8>, StorageError>(e),
        },
{
    let ghost key = material@.key;
    let ghost iv = material@.iv;
    if blob.len() < TAG_LENGTH {
        return Err(StorageError::Corruption);
    }
    let body_len = blob.len() - TAG_LENGTH;
    let body = copy_range(blob, 0, body_len);
    let tag = copy_range(blob, body_len, blob.len());
    proof {
        assert(body@ =~= blob@.take(blob@.len() - 32));
        assert(tag@ =~= blob@.skip(blob@.len() - 32));
    }
    let computed = hmac_sha256(material.key.as_slice(), body.as_slice());
    if !bytes_eq(&tag, &computed) {
        return Err(StorageError::Integrity);
    }
    let mut out: Vec<u8> = Vec::new();
    let mut off: usize = 0;
    proof {
        assert(body@.skip(0) =~= body@);
    }
    while body.len() - off >= 4
        invariant
            material.wf(),
            key == material@.key,
            iv == material@.iv,
            off <= body@.len(),
            tag@ == hmac_sha256_of(key, body@),
            body@ == blob@.take(blob@.len() - 32),
            tag@ == blob@.skip(blob@.len() - 32),
            blob@.len() >= 32,
            parse_stream(key, iv, body@) == match parse_stream(key, iv, body@.skip(off as int)) {
                None => None::<Seq<u8>>,
                Some(rest) => Some(out@ + rest),
            },
        decreases body@.len() - off,
    {
        let ghost rest = body@.skip(off as int);
        proof {
            assert(rest.len() >= 4);
            assert(rest.subrange(0, 4) =~= body@.subrange(off as int, off as int + 4));
        }
        let n = read_le32(&body, off);
        let remaining = (body.len() - off - 4) as u64;
        if n > remaining {
            proof {
                assert(4 + le32_val(rest.subrange(0, 4)) > rest.len());
                assert(parse_stream(key, iv, rest) is None);
                assert(open_blob(key, iv, blob@) == Err::<Seq<u8>, StorageError>(
                    StorageError::Corruption,
                ));
            }
            return Err(StorageError::Corruption);
        }
        let n_usize = n as usize;
        let ct = copy_range(&body, off + 4, off + 4 + n_usize);
        proof {
            assert(ct@ =~= rest.subrange(4, 4 + n as int));
        }
        match decrypt_aes128_cbc(material.key.as_slice(), material.iv.as_slice(), ct.as_slice()) {
            None => {
                proof {
                    assert(aes128_cbc_dec(key, iv, rest.subrange(4, 4 + n as int)) is None);
                    assert(parse_stream(key, iv, rest) is None);
                    assert(open_blob(key, iv, blob@) == Err::<Seq<u8>, StorageError>(
                        StorageError::Corruption,
                    ));
                }
                return Err(StorageError::Corruption);
            },
            Some(piece) => {
                let ghost old_out = out@;
                let ghost next_off = off as int + 4 + n as int;
                proof {
                    assert(aes128_cbc_dec(key, iv, rest.subrange(4, 4 + n as int)) == Some(
                        piece@,
                    ));
                    assert(rest.skip(4 + n as int) =~= body@.skip(next_off));
                    if let Some(r2) = parse_stream(key, iv, body@.skip(next_off)) {
                        assert(parse_stream(key, iv, rest) == Some(piece@ + r2));
                        assert((old_out + piece@) + r2 =~= old_out + (piece@ + r2));
                    } else {
                        assert(parse_stream(key, iv, rest) is None);
                    }
                }
                append_bytes(&mut out, &piece);
                off = off + 4 + n_usize;
            },
        }
    }
    proof {
        assert(body@.skip(off as int).len() < 4);
        assert(parse_stream(key, iv, body@.skip(off as int)) == Some(Seq::<u8>::empty()));
        assert(parse_stream(key, iv, body@) == Some(out@ + Seq::<u8>::empty()));
        assert(out@ + Seq::<u8>::empty() =~= out@);
        assert(open_blob(key, iv, blob@) == Ok::<Seq<u8>, StorageError>(out@));
    }
    Ok(out)
}

/// Encrypts `data` for `file_id`, resolving key material through the
/// vault (creating it on first use) and sealing the stream. On success
/// the blob opens back to `data` under the record's material.
pub fn encrypt_data_chunked(
    vault: &mut KeyVault,
    file_id: &str,
    data: &Vec<u8>,
    password: &str,
    chunk_size: usize,
) -> (r: Result<Vec<u8>, StorageError>)
    requires
        old(vault).wf(),
        1 <= chunk_size <= MAX_CHUNK_SIZE,
    ensures
        final(vault).wf(),
        vault_find(old(vault)@, file_id@) is Some ==> final(vault)@ == old(vault)@,
        r matches Ok(blob) ==> (vault_find(final(vault)@, file_id@) matches Some(rec) && match
            unseal_key(kek_of(password.spec_bytes()), rec.blob) {
            Some(kv) => blob@ == sealed_data_blob(kv.key, kv.iv, data@, chunk_size as nat)
                && open_blob(kv.key, kv.iv, blob@) == Ok::<Seq<u8>, StorageError>(data@),
            None => false,
        }),
        r is Err ==> r == Err::<Vec<u8>, StorageError>(StorageError::KeyCorruption)
            && final(vault)@ == old(vault)@ && (vault_find(old(vault)@, file_id@) matches Some(rec)
            && unseal_key(kek_of(password.spec_bytes()), rec.blob) is None),
        vault_find(old(vault)@, file_id@) is None ==> r is Ok && (vault_find(
            final(vault)@,
            file_id@,
        ) matches Some(rec) && rec.file_id == file_id@ && rec.kek == kek_of(
            password.spec_bytes(),
        ) && crate::vault::key_data_wf(rec.material) && final(vault)@ == old(vault)@.push(rec)),
{
    let material = match vault.get_or_create(file_id, password) {
        Ok(m) => m,
        Err(_) => {
            return Err(StorageError::KeyCorruption);
        },
    };
    let blob = seal_bytes(&material, data, chunk_size);
    Ok(blob)
}

/// Decrypts a sealed blob for `file_id`, resolving key material through
/// the vault. A missing record, a wrong password, a tampered blob and a
/// malformed frame each surface as their own typed error.
pub fn decrypt_data_chunked(
    vault: &KeyVault,
    file_id: &str,
    blob: &Vec<u8>,
    password: &str,
) -> (r: Result<Vec<u8>, StorageError>)
    requires
        vault.wf(),
    ensures
        vault_find(vault@, file_id@) is None ==> r == Err::<Vec<u8>, StorageError>(
            StorageError::KeyNotFound,
        ),
        vault_find(vault@, file_id@) matches Some(rec) ==> match unseal_key(
            kek_of(password.spec_bytes()),
            rec.blob,
        ) {
            None => r == Err::<Vec<u8>, StorageError>(StorageError::KeyCorruption),
            Some(kv) => match open_blob(kv.key, kv.iv, blob@) {
                Ok(p) => r matches Ok(d) && d@ == p,
                Err(e) => r == Err::<Vec<u8>, StorageError>(e),
            },
        },
{
    let material = match vault.load_and_decrypt_key(password, file_id) {
        Ok(m) => m,
        Err(e) => {
            return Err(e);
        },
    };
    open_bytes(&material, blob)
}

} // verus!

verus! {

/// How many chunks a split yields: the ceiling of length over size.
pub proof fn lemma_chunks_count(data: Seq<u8>, size: nat)
    requires
        size >= 1,
    ensures
        chunks_of(data, size).len() == (data.len() + size - 1) / (size as int),
    decreases data.len(),
{
    if data.len() == 0 {
        assert((size - 1) / (size as int) == 0) by (nonlinear_arith)
            requires size >= 1;
    } else if data.len() <= size {
        assert((data.len() + size - 1) / (size as int) == 1) by (nonlinear_arith)
            requires 1 <= data.len() <= size;
    } else {
        lemma_chunks_count(data.skip(size as int), size);
        assert(data.skip(size as int).len() == data.len() - size);
        assert(1 + (data.len() - size + size - 1) / (size as int) == (data.len() + size - 1) / (
        size as int)) by (nonlinear_arith)
            requires size >= 1 && data.len() > size;
    }
}

/// The chunk lengths of a split sum back to the data's length.
pub proof fn lemma_chunks_len_total(data: Seq<u8>, size: nat)
    requires
        size >= 1,
    ensures
        piece_len_total(chunks_of(data, size)) == data.len(),
    decreases data.len(),
{
    if data.len() == 0 {
        assert(chunks_of(data, size) =~= Seq::<Seq<u8>>::empty());
        assert(piece_len_total(Seq::<Seq<u8>>::empty()) == 0);
    } else if data.len() <= size {
        assert(chunks_of(data, size) =~= seq![data]);
        assert(seq![data].drop_first() =~= Seq::<Seq<u8>>::empty());
        assert(piece_len_total(seq![data]) == data.len() + piece_len_total(
            Seq::<Seq<u8>>::empty(),
        ));
    } else {
        let cs = chunks_of(data, size);
        lemma_chunks_len_total(data.skip(size as int), size);
        assert(cs =~= seq![data.take(size as int)] + chunks_of(data.skip(size as int), size));
        assert(cs.len() >= 1);
        assert(cs[0] == data.take(size as int));
        assert(cs.drop_first() =~= chunks_of(data.skip(size as int), size));
        assert(piece_len_total(cs) == cs[0].len() + piece_len_total(cs.drop_first()));
    }
}

/// The summed lengths of a run of byte strings.
pub open spec fn piece_len_total(pieces: Seq<Seq<u8>>) -> int
    decreases pieces.len(),
{
    if pieces.len() == 0 {
        0
    } else {
        pieces[0].len() + piece_len_total(pieces.drop_first())
    }
}

} // verus!
