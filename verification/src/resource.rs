//! Resource packs: the concatenated file format and its optional compression.
use vstd::prelude::*;
use vstd::utf8::{decode_utf8, encode_utf8, valid_utf8};
use vstd::string::StringSliceAdditionalSpecFns;
use crate::text::{chars_of, string_from_chars};

verus! {

/// The `k` low bytes of `n`, least significant first.
pub open spec fn le_bytes(n: nat, k: nat) -> Seq<u8>
    decreases k,
{
    if k == 0 {
        seq![]
    } else {
        seq![(n % 256) as u8] + le_bytes(n / 256, (k - 1) as nat)
    }
}

fn push_le(out: &mut Vec<u8>, n: u64, k: usize)
    ensures
        final(out)@ == old(out)@ + le_bytes(n as nat, k as nat),
{
    let mut v: u64 = n;
    let mut i: usize = 0;
    let ghost start = old(out)@;
    while i < k
        invariant
            i <= k,
            start == old(out)@,
            start + le_bytes(n as nat, k as nat) == out@ + le_bytes(v as nat, (k - i) as nat),
        decreases k - i,
    {
        let ghost rest = le_bytes(v as nat, (k - i) as nat);
        assert(rest == seq![(v % 256) as u8] + le_bytes((v / 256) as nat, (k - i - 1) as nat));
        out.push((v % 256) as u8);
        v = v / 256;
        i = i + 1;
        assert(out@ + le_bytes(v as nat, (k - i) as nat) == start + le_bytes(n as nat, k as nat));
    }
    assert(le_bytes(v as nat, 0) == Seq::<u8>::empty());
}

/// One file of a pack: the length of its path in UTF-8 (as 4 little-endian
/// bytes, taken modulo 2^32), the path, the length of its content (as 8
/// little-endian bytes) and the content.
pub open spec fn cat_entry(path: Seq<char>, content: Seq<u8>) -> Seq<u8> {
    le_bytes(encode_utf8(path).len() % 0x1_0000_0000, 4) + encode_utf8(path) + le_bytes(
        content.len(),
        8,
    ) + content
}

/// The pack of the first `n` files, file after file.
pub open spec fn cat_spec(files: Seq<(String, Vec<u8>)>, n: nat) -> Seq<u8>
    decreases n,
{
    if n == 0 {
        seq![]
    } else {
        cat_spec(files, (n - 1) as nat) + cat_entry(files[n - 1].0@, files[n - 1].1@)
    }
}

/// The concatenated pack of the files, in order.
pub fn build_cat_data(files: &[(String, Vec<u8>)]) -> (r: Vec<u8>)
    ensures
        r@ == cat_spec(files@, files@.len()),
{
    let mut out: Vec<u8> = Vec::new();
    let mut i: usize = 0;
    while i < files.len()
        invariant
            i <= files@.len(),
            out@ == cat_spec(files@, i as nat),
        decreases files@.len() - i,
    {
        let path = files[i].0.as_str();
        let content = &files[i].1;
        let ghost before = out@;
        let plen: usize = path.len();
        let bytes = path.as_bytes();
        assert(bytes@ == encode_utf8(path@));
        push_le(&mut out, (plen as u64) % 0x1_0000_0000, 4);
        let mut k: usize = 0;
        let ghost mid = out@;
        while k < bytes.len()
            invariant
                k <= bytes@.len(),
                out@ == mid + bytes@.take(k as int),
            decreases bytes@.len() - k,
        {
            out.push(bytes[k]);
            k = k + 1;
            assert(out@ == mid + bytes@.take(k as int));
        }
        assert(bytes@.take(k as int) == bytes@);
        push_le(&mut out, content.len() as u64, 8);
        let mut k: usize = 0;
        let ghost mid2 = out@;
        while k < content.len()
            invariant
                k <= content@.len(),
                out@ == mid2 + content@.take(k as int),
            decreases content@.len() - k,
        {
            out.push(content[k]);
            k = k + 1;
            assert(out@ == mid2 + content@.take(k as int));
        }
        assert(content@.take(k as int) == content@);
        assert(out@ == before + cat_entry(files@[i as int].0@, files@[i as int].1@));
        i = i + 1;
    }
    out
}

/// Whether a pack is compressed: only one embedded in the program (written to
/// no separate file) and larger than 80 KiB.
pub fn should_compress(has_output: bool, len: usize) -> (r: bool)
    ensures
        r == (!has_output && len > 80 * 1024),
{
    !has_output && len > 80 * 1024
}

/// The zstd frame that `zstd::bulk::compress` produces for `data` at `level`.
pub uninterp spec fn zstd_compressed(data: Seq<u8>, level: int) -> Seq<u8>;

/// `zstd::bulk::compress`: where it succeeds, the claim is that the bytes are
/// the compressed frame for the data and level; a failure (the compression
/// context could not be made) is given as `None`, and when it happens is not
/// stated.
#[verifier::external_body]
fn zstd_compress(data: &[u8], level: i32) -> (r: Option<Vec<u8>>)
    ensures
        r matches Some(v) ==> v@ == zstd_compressed(data@, level as int),
{
    zstd::bulk::compress(data, level).ok()
}

/// What `zstd::bulk::decompress` gives for `data` within `capacity` bytes.
pub uninterp spec fn zstd_decompressed(data: Seq<u8>, capacity: nat) -> Seq<u8>;

/// `zstd::bulk::decompress`: where it succeeds, the claim is that the bytes are
/// its result for the data and capacity, no longer than the capacity (as its
/// documentation says), and, zstd being lossless, the very data that was
/// compressed into a frame equal to the input.  When it fails is not stated.
#[verifier::external_body]
fn zstd_decompress(data: &[u8], capacity: usize) -> (r: Option<Vec<u8>>)
    ensures
        r matches Some(v) ==> v@ == zstd_decompressed(data@, capacity as nat) && v@.len()
            <= capacity,
        r matches Some(v) ==> forall|x: Seq<u8>, level: int|
            data@ == #[trigger] zstd_compressed(x, level) ==> v@ == x,
{
    zstd::bulk::decompress(data, capacity).ok()
}

/// Decompresses zstd data expected to hold at most `capacity` bytes; `None`
/// where it cannot.
pub fn decompress_zstd(data: &[u8], capacity: usize) -> (r: Option<Vec<u8>>)
    ensures
        r matches Some(v) ==> v@ == zstd_decompressed(data@, capacity as nat) && v@.len()
            <= capacity,
        r matches Some(v) ==> forall|x: Seq<u8>, level: int|
            data@ == #[trigger] zstd_compressed(x, level) ==> v@ == x,
{
    zstd_decompress(data, capacity)
}

/// Compresses a file's bytes for embedding in the program, with zstd at
/// `level` (level 0 stands for zstd's default); `None` where compression
/// fails.  Decompressing the result within the file's length gives the file
/// back (see `decompress_zstd`).
pub fn flate_bytes(data: &[u8], level: i32) -> (r: Option<Vec<u8>>)
    ensures
        r matches Some(v) ==> v@ == zstd_compressed(data@, level as int),
{
    zstd_compress(data, level)
}

/// A pack ready to embed or write: its bytes, the length before compression
/// and whether it was compressed.
pub struct PackedData {
    pub data: Vec<u8>,
    pub original_len: usize,
    pub compressed: bool,
}

/// Why a pack could not be built.
#[derive(Clone, Copy, Debug, PartialEq, Eq, Structural)]
pub enum PackError {
    CompressionFailed,
}

/// The pack of `files`, compressed at level 3 where `should_compress` says so.
pub fn pack_resources(files: &[(String, Vec<u8>)], has_output: bool) -> (r: Result<PackedData, PackError>)
    ensures
        match r {
            Ok(p) => {
                let cat = cat_spec(files@, files@.len());
                &&& p.original_len == cat.len()
                &&& p.compressed == (!has_output && cat.len() > 80 * 1024)
                &&& p.data@ == if p.compressed {
                    zstd_compressed(cat, 3)
                } else {
                    cat
                }
            },
            Err(_) => !has_output && cat_spec(files@, files@.len()).len() > 80 * 1024,
        },
{
    let cat = build_cat_data(files);
    let original_len = cat.len();
    let compressed = should_compress(has_output, original_len);
    if compressed {
        match zstd_compress(&cat, 3) {
            Some(data) => Ok(PackedData { data, original_len, compressed }),
            None => Err(PackError::CompressionFailed),
        }
    } else {
        Ok(PackedData { data: cat, original_len, compressed })
    }
}

/// The number that `b` holds in little-endian order.
pub open spec fn le_value(b: Seq<u8>) -> nat
    decreases b.len(),
{
    if b.len() == 0 {
        0
    } else {
        b[0] as nat + 256 * le_value(b.drop_first())
    }
}

/// Why a pack could not be unpacked.
#[derive(Clone, Copy, Debug, PartialEq, Eq, Structural)]
pub enum UnpackError {
    /// A length or a field runs past the end of the data.
    Truncated,
    /// A path is not UTF-8.
    InvalidPath,
    /// A compressed pack could not be decompressed.
    DecompressFailed,
}

/// The files that a pack holds, read one after another from its start: each
/// is a 4-byte path length, the path in UTF-8, an 8-byte content length and
/// the content (lengths little-endian).
pub open spec fn unpack_spec(data: Seq<u8>) -> Result<Seq<(Seq<char>, Seq<u8>)>, UnpackError>
    decreases data.len(),
{
    if data.len() == 0 {
        Ok(seq![])
    } else if data.len() < 4 {
        Err(UnpackError::Truncated)
    } else {
        let pl: int = le_value(data.take(4)) as int;
        if data.len() < 4 + pl {
            Err(UnpackError::Truncated)
        } else if !valid_utf8(data.subrange(4, 4 + pl)) {
            Err(UnpackError::InvalidPath)
        } else if data.len() < 12 + pl {
            Err(UnpackError::Truncated)
        } else {
            let cl: int = le_value(data.subrange(4 + pl, 12 + pl)) as int;
            if data.len() < 12 + pl + cl {
                Err(UnpackError::Truncated)
            } else {
                match unpack_spec(data.skip(12 + pl + cl)) {
                    Ok(rest) => Ok(
                        seq![(decode_utf8(data.subrange(4, 4 + pl)), data.subrange(12 + pl, 12 + pl + cl))]
                            + rest,
                    ),
                    Err(e) => Err(e),
                }
            }
        }
    }
}

/// `256^k`.
pub open spec fn pow256(k: nat) -> nat
    decreases k,
{
    if k == 0 {
        1
    } else {
        256 * pow256((k - 1) as nat)
    }
}

proof fn lemma_pow256_le_8(k: nat)
    requires
        k <= 8,
    ensures
        pow256(k) <= 0x1_0000_0000_0000_0000,
        k <= 4 ==> pow256(k) <= 0x1_0000_0000,
{
    reveal_with_fuel(pow256, 9);
}

/// The little-endian number in `data[at..at + k]`.
fn read_le(data: &[u8], at: usize, k: usize) -> (r: u64)
    requires
        at + k <= data@.len(),
        k <= 8,
    ensures
        r == le_value(data@.subrange(at as int, at + k)),
        r < pow256(k as nat),
{
    let mut v: u64 = 0;
    let mut j: usize = k;
    let n = data.len();
    proof {
        lemma_pow256_le_8(k as nat);
    }
    while j > 0
        invariant
            n == data@.len(),
            j <= k <= 8,
            at + k <= data@.len(),
            v == le_value(data@.subrange(at + j, at + k)),
            v < pow256((k - j) as nat),
            pow256(k as nat) <= 0x1_0000_0000_0000_0000,
        decreases j,
    {
        let ghost m = (k - j) as nat;
        proof {
            assert(pow256(m + 1) == 256 * pow256(m));
            assert(m + 1 <= 8);
            lemma_pow256_le_8(m + 1);
        }
        let b = data[at + j - 1];
        assert(data@.subrange(at + j - 1, at + k).drop_first() == data@.subrange(at + j, at + k));
        v = v * 256 + b as u64;
        j = j - 1;
    }
    v
}

fn copy_range(data: &[u8], from: usize, to: usize) -> (r: Vec<u8>)
    requires
        from <= to <= data@.len(),
    ensures
        r@ == data@.subrange(from as int, to as int),
{
    let mut out: Vec<u8> = Vec::new();
    let mut i: usize = from;
    while i < to
        invariant
            from <= i <= to <= data@.len(),
            out@ == data@.subrange(from as int, i as int),
        decreases to - i,
    {
        out.push(data[i]);
        i = i + 1;
        assert(out@ == data@.subrange(from as int, i as int));
    }
    out
}

/// `String::from_utf8`: as its documentation says, it succeeds exactly where
/// the bytes are UTF-8, and then holds the characters they encode.
#[verifier::external_body]
fn string_from_utf8(bytes: Vec<u8>) -> (r: Option<String>)
    ensures
        match r {
            Some(s) => valid_utf8(bytes@) && s@ == decode_utf8(bytes@),
            None => !valid_utf8(bytes@),
        },
{
    String::from_utf8(bytes).ok()
}

/// The views of unpacked files.
pub open spec fn file_views(v: Seq<(String, Vec<u8>)>) -> Seq<(Seq<char>, Seq<u8>)> {
    v.map_values(|f: (String, Vec<u8>)| (f.0@, f.1@))
}

/// The files that a pack holds: see `unpack_spec`.
pub fn unpack_files(data: &[u8]) -> (r: Result<Vec<(String, Vec<u8>)>, UnpackError>)
    ensures
        match unpack_spec(data@) {
            Ok(files) => r matches Ok(v) && file_views(v@) == files,
            Err(e) => r == Err::<Vec<(String, Vec<u8>)>, UnpackError>(e),
        },
{
    let mut out: Vec<(String, Vec<u8>)> = Vec::new();
    let mut offset: usize = 0;
    let n = data.len();
    assert(data@.skip(0) == data@);
    assert(forall|rest: Seq<(Seq<char>, Seq<u8>)>| file_views(out@) + rest == rest);
    while offset < n
        invariant
            n == data@.len(),
            offset <= n,
            unpack_spec(data@) == match unpack_spec(data@.skip(offset as int)) {
                Ok(rest) => Ok(file_views(out@) + rest),
                Err(e) => Err::<Seq<(Seq<char>, Seq<u8>)>, UnpackError>(e),
            },
        decreases n - offset,
    {
        let ghost s = data@.skip(offset as int);
        let rem = n - offset;
        if rem < 4 {
            return Err(UnpackError::Truncated);
        }
        let pl64 = read_le(data, offset, 4);
        proof {
            lemma_pow256_le_8(4);
            assert(s.take(4) == data@.subrange(offset as int, offset + 4));
        }
        if ((rem - 4) as u64) < pl64 {
            return Err(UnpackError::Truncated);
        }
        let pl = pl64 as usize;
        let pb = copy_range(data, offset + 4, offset + 4 + pl);
        assert(s.subrange(4, 4 + pl) == pb@);
        let path = match string_from_utf8(pb) {
            Some(p) => p,
            None => {
                return Err(UnpackError::InvalidPath);
            },
        };
        if rem - 4 - pl < 8 {
            return Err(UnpackError::Truncated);
        }
        let cl64 = read_le(data, offset + 4 + pl, 8);
        assert(s.subrange(4 + pl, 12 + pl) == data@.subrange(offset + 4 + pl, offset + 12 + pl));
        if ((rem - 12 - pl) as u64) < cl64 {
            return Err(UnpackError::Truncated);
        }
        let cl = cl64 as usize;
        let content = copy_range(data, offset + 12 + pl, offset + 12 + pl + cl);
        assert(s.subrange(12 + pl, 12 + pl + cl) == content@);
        assert(s.skip(12 + pl + cl) == data@.skip(offset + 12 + pl + cl));
        let ghost before = out@;
        out.push((path, content));
        assert(file_views(out@) == file_views(before).push((path@, content@)));
        offset = offset + 12 + pl + cl;
        proof {
            match unpack_spec(data@.skip(offset as int)) {
                Ok(rest) => {
                    assert(file_views(before) + (seq![(path@, content@)] + rest) == file_views(out@) + rest);
                },
                Err(_) => {},
            }
        }
    }
    assert(data@.skip(offset as int) == Seq::<u8>::empty());
    assert(file_views(out@) + Seq::<(Seq<char>, Seq<u8>)>::empty() == file_views(out@));
    Ok(out)
}

/// The view of an unpacking's result.
pub open spec fn unpacked_view(r: Result<Vec<(String, Vec<u8>)>, UnpackError>) -> Result<
    Seq<(Seq<char>, Seq<u8>)>,
    UnpackError,
> {
    match r {
        Ok(v) => Ok(file_views(v@)),
        Err(e) => Err(e),
    }
}

/// `r` is what loading the pack `data` gives: where it is compressed, the
/// files of its decompression within `original_len` bytes (which, where `data`
/// is the frame of some bytes, are those bytes), unless decompression fails;
/// else the files of `data` itself.
pub open spec fn load_result(
    data: Seq<u8>,
    compressed: bool,
    original_len: nat,
    r: Result<Seq<(Seq<char>, Seq<u8>)>, UnpackError>,
) -> bool {
    if compressed {
        ||| r == Err::<Seq<(Seq<char>, Seq<u8>)>, UnpackError>(UnpackError::DecompressFailed)
        ||| {
            let d = zstd_decompressed(data, original_len);
            &&& d.len() <= original_len
            &&& r == unpack_spec(d)
            &&& forall|x: Seq<u8>, level: int| data == #[trigger] zstd_compressed(x, level) ==> d == x
        }
    } else {
        r == unpack_spec(data)
    }
}

/// Loads the files of a pack: decompresses it first where it was compressed
/// (`original_len` being its length before), then unpacks it.
pub fn load_pack(data: &[u8], compressed: bool, original_len: usize) -> (r: Result<
    Vec<(String, Vec<u8>)>,
    UnpackError,
>)
    ensures
        load_result(data@, compressed, original_len as nat, unpacked_view(r)),
{
    if compressed {
        match decompress_zstd(data, original_len) {
            Some(d) => unpack_files(&d),
            None => Err(UnpackError::DecompressFailed),
        }
    } else {
        unpack_files(data)
    }
}

proof fn lemma_pow256_pos(k: nat)
    ensures
        pow256(k) > 0,
    decreases k,
{
    if k > 0 {
        lemma_pow256_pos((k - 1) as nat);
    }
}

proof fn lemma_le_round_trip(n: nat, k: nat)
    ensures
        le_bytes(n, k).len() == k,
        le_value(le_bytes(n, k)) == n % pow256(k),
    decreases k,
{
    lemma_pow256_pos(k);
    if k > 0 {
        lemma_le_round_trip(n / 256, (k - 1) as nat);
        lemma_pow256_pos((k - 1) as nat);
        let b = le_bytes(n, k);
        assert(b.drop_first() == le_bytes(n / 256, (k - 1) as nat));
        vstd::arithmetic::div_mod::lemma_mod_breakdown(n as int, 256, pow256((k - 1) as nat) as int);
    } else {
        assert(le_bytes(n, 0).len() == 0);
    }
}

/// The bytes of one file of a pack are read back as that file.
#[verifier::spinoff_prover]
proof fn lemma_unpack_entry(p: Seq<char>, c: Seq<u8>, rest: Seq<u8>)
    requires
        encode_utf8(p).len() < 0x1_0000_0000,
        c.len() < 0x1_0000_0000_0000_0000,
    ensures
        unpack_spec(cat_entry(p, c) + rest) == match unpack_spec(rest) {
            Ok(r) => Ok(seq![(p, c)] + r),
            Err(e) => Err::<Seq<(Seq<char>, Seq<u8>)>, UnpackError>(e),
        },
{
    let e = encode_utf8(p);
    let l: int = e.len() as int;
    let cl: int = c.len() as int;
    reveal_with_fuel(pow256, 9);
    lemma_le_round_trip((l % 0x1_0000_0000) as nat, 4);
    lemma_le_round_trip(c.len(), 8);
    vstd::utf8::encode_utf8_valid_utf8(p);
    vstd::utf8::encode_utf8_decode_utf8(p);
    let d = cat_entry(p, c) + rest;
    assert(d.take(4) == le_bytes((l % 0x1_0000_0000) as nat, 4));
    assert(d.subrange(4, 4 + l) == e);
    assert(d.subrange(4 + l, 12 + l) == le_bytes(c.len(), 8));
    assert(d.subrange(12 + l, 12 + l + cl) == c);
    assert(d.skip(12 + l + cl) == rest);
    assert(pow256(4) == 0x1_0000_0000);
    assert(pow256(8) == 0x1_0000_0000_0000_0000);
    vstd::arithmetic::div_mod::lemma_small_mod(l as nat, 0x1_0000_0000);
    vstd::arithmetic::div_mod::lemma_small_mod(cl as nat, 0x1_0000_0000_0000_0000);
    assert(le_value(le_bytes((l % 0x1_0000_0000) as nat, 4)) == l);
    assert(le_value(d.take(4)) == l);
    assert(le_value(le_bytes(c.len(), 8)) == cl);
    assert(le_value(d.subrange(4 + l, 12 + l)) == cl);
    assert(d.len() == 12 + l + cl + rest.len());
    assert(decode_utf8(d.subrange(4, 4 + l)) == p);
}

proof fn lemma_unpack_cat(files: Seq<(String, Vec<u8>)>, n: nat, rest: Seq<u8>)
    requires
        n <= files.len(),
        forall|i: int|
            0 <= i < files.len() ==> encode_utf8(#[trigger] files[i].0@).len() < 0x1_0000_0000
                && files[i].1@.len() < 0x1_0000_0000_0000_0000,
    ensures
        unpack_spec(cat_spec(files, n) + rest) == match unpack_spec(rest) {
            Ok(r) => Ok(file_views(files.take(n as int)) + r),
            Err(e) => Err::<Seq<(Seq<char>, Seq<u8>)>, UnpackError>(e),
        },
    decreases n,
{
    if n == 0 {
        assert(cat_spec(files, 0) + rest == rest);
        match unpack_spec(rest) {
            Ok(r) => {
                assert(file_views(files.take(0)) + r == r);
            },
            Err(_) => {},
        }
    } else {
        let f = files[n - 1];
        let e = cat_entry(f.0@, f.1@);
        assert(cat_spec(files, n) + rest == cat_spec(files, (n - 1) as nat) + (e + rest));
        lemma_unpack_cat(files, (n - 1) as nat, e + rest);
        lemma_unpack_entry(f.0@, f.1@, rest);
        assert(file_views(files.take(n as int)) == file_views(files.take(n - 1)).push((f.0@, f.1@)));
        match unpack_spec(rest) {
            Ok(r) => {
                assert(file_views(files.take(n - 1)) + (seq![(f.0@, f.1@)] + r) == file_views(
                    files.take(n as int),
                ) + r);
            },
            Err(_) => {},
        }
    }
}

/// Unpacking the pack of a list of files gives back the files, paths and
/// contents, in their order (for paths shorter than 4 GiB in UTF-8, whose
/// length the pack holds in 4 bytes).
pub proof fn law_unpack_round_trip(files: Seq<(String, Vec<u8>)>)
    requires
        forall|i: int|
            0 <= i < files.len() ==> encode_utf8(#[trigger] files[i].0@).len() < 0x1_0000_0000
                && files[i].1@.len() < 0x1_0000_0000_0000_0000,
    ensures
        unpack_spec(cat_spec(files, files.len())) == Ok::<Seq<(Seq<char>, Seq<u8>)>, UnpackError>(
            file_views(files),
        ),
{
    lemma_unpack_cat(files, files.len(), seq![]);
    assert(cat_spec(files, files.len()) + Seq::<u8>::empty() == cat_spec(files, files.len()));
    assert(files.take(files.len() as int) == files);
    assert(file_views(files) + Seq::<(Seq<char>, Seq<u8>)>::empty() == file_views(files));
}

/// A pack built from a list of files and loaded again gives back those files,
/// unless its decompression fails (for paths shorter than 4 GiB in UTF-8).
pub proof fn law_pack_load_round_trip(
    files: Seq<(String, Vec<u8>)>,
    data: Seq<u8>,
    compressed: bool,
    original_len: nat,
    r: Result<Seq<(Seq<char>, Seq<u8>)>, UnpackError>,
)
    requires
        forall|i: int|
            0 <= i < files.len() ==> encode_utf8(#[trigger] files[i].0@).len() < 0x1_0000_0000
                && files[i].1@.len() < 0x1_0000_0000_0000_0000,
        original_len == cat_spec(files, files.len()).len(),
        data == if compressed {
            zstd_compressed(cat_spec(files, files.len()), 3)
        } else {
            cat_spec(files, files.len())
        },
        load_result(data, compressed, original_len, r),
    ensures
        r == Ok::<Seq<(Seq<char>, Seq<u8>)>, UnpackError>(file_views(files)) || (compressed && r
            == Err::<Seq<(Seq<char>, Seq<u8>)>, UnpackError>(UnpackError::DecompressFailed)),
{
    law_unpack_round_trip(files);
    if compressed && r != Err::<Seq<(Seq<char>, Seq<u8>)>, UnpackError>(UnpackError::DecompressFailed) {
        let d = zstd_decompressed(data, original_len);
        assert(data == zstd_compressed(cat_spec(files, files.len()), 3));
        assert(d == cat_spec(files, files.len()));
    }
}

/// `a` comes before `b` in the lexicographic order of their characters (the
/// order of `str`, whose UTF-8 bytes compare as their code points do).
pub open spec fn lex_lt(a: Seq<char>, b: Seq<char>) -> bool
    decreases a.len(),
{
    if a.len() == 0 {
        b.len() > 0
    } else if b.len() == 0 {
        false
    } else if a[0] != b[0] {
        a[0] < b[0]
    } else {
        lex_lt(a.drop_first(), b.drop_first())
    }
}

proof fn lemma_lex_irreflexive(a: Seq<char>)
    ensures
        !lex_lt(a, a),
    decreases a.len(),
{
    if a.len() > 0 {
        lemma_lex_irreflexive(a.drop_first());
    }
}

proof fn lemma_lex_transitive(a: Seq<char>, b: Seq<char>, c: Seq<char>)
    requires
        lex_lt(a, b),
        lex_lt(b, c),
    ensures
        lex_lt(a, c),
    decreases a.len(),
{
    if a.len() > 0 && b.len() > 0 && c.len() > 0 && a[0] == b[0] && b[0] == c[0] {
        lemma_lex_transitive(a.drop_first(), b.drop_first(), c.drop_first());
    }
}

proof fn lemma_lex_total(a: Seq<char>, b: Seq<char>)
    ensures
        a == b || lex_lt(a, b) || lex_lt(b, a),
    decreases a.len(),
{
    if a.len() > 0 && b.len() > 0 && a[0] == b[0] {
        lemma_lex_total(a.drop_first(), b.drop_first());
        if a.drop_first() == b.drop_first() {
            assert(a == seq![a[0]] + a.drop_first());
            assert(b == seq![b[0]] + b.drop_first());
        }
    } else if a.len() == 0 && b.len() == 0 {
        assert(a == b);
    }
}

fn lex_less(a: &[char], b: &[char]) -> (r: bool)
    ensures
        r == lex_lt(a@, b@),
{
    let mut i: usize = 0;
    assert(a@.skip(0) == a@ && b@.skip(0) == b@);
    while i < a.len() && i < b.len() && a[i] == b[i]
        invariant
            i <= a@.len(),
            i <= b@.len(),
            lex_lt(a@, b@) == lex_lt(a@.skip(i as int), b@.skip(i as int)),
        decreases a@.len() - i,
    {
        assert(a@.skip(i as int).drop_first() == a@.skip(i + 1));
        assert(b@.skip(i as int).drop_first() == b@.skip(i + 1));
        i = i + 1;
    }
    if i == a.len() {
        i < b.len()
    } else if i == b.len() {
        false
    } else {
        assert(a@.skip(i as int)[0] == a@[i as int]);
        assert(b@.skip(i as int)[0] == b@[i as int]);
        a[i] < b[i]
    }
}

/// The name a resource file is packed under: its path relative to the
/// resource directory, in Unicode lower case, with `/` for `\\`.
pub open spec fn resource_name(rel: Seq<char>) -> Seq<char> {
    crate::hooks::unicode_lower(rel).map_values(|c: char| crate::vfs::to_slash(c))
}

/// The files with the name `k`.
pub open spec fn named(k: Seq<char>) -> spec_fn((Seq<char>, Seq<u8>)) -> bool {
    |f: (Seq<char>, Seq<u8>)| f.0 == k
}

/// `t` holds the files of `s` ordered by name; files of one name keep their
/// order (a stable sort).
pub open spec fn sorted_by_name(t: Seq<(Seq<char>, Seq<u8>)>, s: Seq<(Seq<char>, Seq<u8>)>) -> bool {
    &&& forall|i: int, j: int| 0 <= i < j < t.len() ==> !lex_lt(t[j].0, t[i].0)
    &&& forall|k: Seq<char>| #[trigger] t.filter(named(k)) == s.filter(named(k))
}

/// The files found in a resource directory, each under its packed name.
pub open spec fn renamed(s: Seq<(Seq<char>, Seq<u8>)>) -> Seq<(Seq<char>, Seq<u8>)> {
    s.map_values(|f: (Seq<char>, Seq<u8>)| (resource_name(f.0), f.1))
}

proof fn lemma_insert_named(v: Seq<(Seq<char>, Seq<u8>)>, k: int, x: (Seq<char>, Seq<u8>), n: Seq<char>)
    requires
        0 <= k <= v.len(),
        forall|j: int| k <= j < v.len() ==> lex_lt(x.0, v[j].0),
    ensures
        v.insert(k, x).filter(named(n)) == if n == x.0 {
            v.filter(named(n)).push(x)
        } else {
            v.filter(named(n))
        },
{
    let pred = named(n);
    let l = v.take(k);
    let r = v.skip(k);
    assert(v.insert(k, x) == l + seq![x] + r);
    assert(v == l + r);
    assert(l + seq![x] == l.push(x));
    Seq::filter_distributes_over_add(l + seq![x], r, pred);
    Seq::filter_distributes_over_add(l, r, pred);
    l.lemma_filter_push(x, pred);
    if n == x.0 {
        assert forall|j: int| 0 <= j < r.len() implies !pred(r[j]) by {
            assert(r[j] == v[k + j]);
            lemma_lex_irreflexive(x.0);
        }
        assert(r.all(|f: (Seq<char>, Seq<u8>)| !pred(f)));
        r.lemma_all_neg_filter_empty(pred);
        assert(r.filter(pred) == Seq::<(Seq<char>, Seq<u8>)>::empty());
        assert(l.filter(pred) + r.filter(pred) == l.filter(pred));
        assert(l.filter(pred).push(x) + r.filter(pred) == l.filter(pred).push(x));
    }
}

/// The files found in a resource directory (each with its path relative to
/// the directory), renamed to their packed names and ordered by name.
pub fn resource_files(found: Vec<(String, Vec<u8>)>) -> (r: Vec<(String, Vec<u8>)>)
    ensures
        sorted_by_name(file_views(r@), renamed(file_views(found@))),
{
    let ghost src = renamed(file_views(found@));
    let n0: usize = found.len();
    let mut rest = found;
    let mut out: Vec<(String, Vec<u8>)> = Vec::new();
    let mut i: usize = 0;
    assert(src.take(0) == file_views(out@));
    while rest.len() > 0
        invariant
            i + rest@.len() == n0,
            src.len() == n0,
            forall|j: int| 0 <= j < rest@.len() ==> #[trigger] renamed(file_views(rest@))[j] == src[i + j],
            sorted_by_name(file_views(out@), src.take(i as int)),
        decreases rest@.len(),
    {
        let ghost rest_before = rest@;
        let (path, content) = rest.remove(0);
        proof {
            assert(renamed(file_views(rest_before))[0] == src[i as int]);
            assert forall|j: int| 0 <= j < rest@.len() implies #[trigger] renamed(file_views(rest@))[j] == src[i + 1 + j] by {
                assert(rest@[j] == rest_before[j + 1]);
                assert(renamed(file_views(rest_before))[j + 1] == src[i + j + 1]);
            }
        }
        let lower = crate::hooks::to_lowercase(path.as_str());
        let lc = chars_of(lower.as_str());
        let mut nc: Vec<char> = Vec::new();
        let mut q: usize = 0;
        while q < lc.len()
            invariant
                q <= lc@.len(),
                nc@ == lc@.map_values(|c: char| crate::vfs::to_slash(c)).take(q as int),
            decreases lc@.len() - q,
        {
            let c = lc[q];
            nc.push(if c == '\\' { '/' } else { c });
            q = q + 1;
            assert(nc@ == lc@.map_values(|c: char| crate::vfs::to_slash(c)).take(q as int));
        }
        assert(lc@.map_values(|c: char| crate::vfs::to_slash(c)).take(q as int) == lc@.map_values(|c: char| crate::vfs::to_slash(c)));
        assert(nc@ == resource_name(path@));
        let ghost x = (nc@, content@);
        assert(x == src[i as int]);
        let mut k: usize = out.len();
        while k > 0 && lex_less(nc.as_slice(), chars_of(out[k - 1].0.as_str()).as_slice())
            invariant
                k <= out@.len(),
                forall|j: int| k <= j < out@.len() ==> lex_lt(nc@, #[trigger] out@[j].0@),
            decreases k,
        {
            k = k - 1;
        }
        let ghost before = file_views(out@);
        let name = string_from_chars(nc.as_slice());
        out.insert(k, (name, content));
        proof {
            assert(file_views(out@) == before.insert(k as int, x));
            assert(src.take(i + 1) == src.take(i as int).push(x));
            assert forall|n: Seq<char>| #[trigger] file_views(out@).filter(named(n)) == src.take(i + 1).filter(named(n)) by {
                lemma_insert_named(before, k as int, x, n);
                src.take(i as int).lemma_filter_push(x, named(n));
            }
            let t = file_views(out@);
            assert forall|p: int, q2: int| 0 <= p < q2 < t.len() implies !lex_lt(t[q2].0, t[p].0) by {
                if q2 < k {
                } else if q2 == k {
                    if p < k {
                        lemma_lex_total(before[p].0, x.0);
                        if lex_lt(x.0, before[p].0) {
                            if p < k - 1 {
                                lemma_lex_total(before[p].0, before[k - 1].0);
                                if lex_lt(before[p].0, before[k - 1].0) {
                                    lemma_lex_transitive(x.0, before[p].0, before[k - 1].0);
                                }
                            }
                        }
                    }
                } else if p < k {
                    lemma_lex_total(before[p].0, before[q2 - 1].0);
                } else if p == k {
                    lemma_lex_total(x.0, before[q2 - 1].0);
                    if lex_lt(before[q2 - 1].0, x.0) {
                        lemma_lex_transitive(x.0, before[q2 - 1].0, x.0);
                        lemma_lex_irreflexive(x.0);
                    }
                } else {
                }
            }
        }
        i = i + 1;
    }
    assert(src.take(i as int) == src);
    out
}

} // verus!
