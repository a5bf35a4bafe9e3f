//! Reading the archive back: a specification-level extractor over the bytes
//! of a finished ZIP stream, and the proof that on an archive this library
//! emitted it recovers exactly the entries that were added — each name, each
//! CRC-32, and each entry's compressed bytes. Together with the stream
//! theorem of `archive`, this pins the round trip at the container level;
//! only the deflate transform itself stays behind its name.

use vstd::prelude::*;
use crate::archive::{
    archive_fits, le16, le32, lemma_central_dir_bounded, spec_archive, spec_central_dir,
    spec_central_prefix, spec_central_record, spec_central_record_of, spec_chunks,
    spec_entry_chunk, spec_entry_offset, spec_eocd, spec_eocd_bytes, spec_local_header, crc32_of,
    deflate_of,
};

verus! {

/// The 16-bit little-endian value at offset `i` of `a`.
pub open spec fn le16_at(a: Seq<u8>, i: int) -> nat {
    a[i] as nat + 256 * (a[i + 1] as nat)
}

/// The 32-bit little-endian value at offset `i` of `a`.
pub open spec fn le32_at(a: Seq<u8>, i: int) -> nat {
    a[i] as nat + 256 * (a[i + 1] as nat) + 65536 * (a[i + 2] as nat) + 16777216 * (a[
        i + 3
    ] as nat)
}

/// Reading back the two bytes of `le16` yields the value.
proof fn lemma_le16_inverse(v: nat)
    requires
        v <= 0xFFFF,
    ensures
        le16_at(le16(v), 0) == v,
{
    let x = v as u16;
    assert((x % 256) as nat + 256 * ((x / 256) % 256) as nat == x as nat) by (bit_vector);
}

/// Reading back the four bytes of `le32` yields the value.
proof fn lemma_le32_inverse(v: nat)
    requires
        v <= 0xFFFFFFFF,
    ensures
        le32_at(le32(v), 0) == v,
{
    let x = v as u32;
    assert(le32(v)[0] == ((v % 65536) % 256) as u8);
    assert(le32(v)[1] == (((v % 65536) / 256) % 256) as u8);
    assert(le32(v)[2] == (((v / 65536) % 65536) % 256) as u8);
    assert(le32(v)[3] == ((((v / 65536) % 65536) / 256) % 256) as u8);
    assert((x % 65536 % 256) as nat + 256 * ((x % 65536 / 256 % 256) as nat) + 65536 * ((x / 65536
        % 65536 % 256) as nat) + 16777216 * ((x / 65536 % 65536 / 256 % 256) as nat) == x as nat)
        by (bit_vector);
}

/// Reading four bytes that hold `le32(v)` yields `v`.
proof fn lemma_le32_read(a: Seq<u8>, i: int, v: nat)
    requires
        0 <= i,
        i + 4 <= a.len(),
        a.subrange(i, i + 4) == le32(v),
        v <= 0xFFFFFFFF,
    ensures
        le32_at(a, i) == v,
{
    lemma_le32_inverse(v);
    assert(a[i] == a.subrange(i, i + 4)[0]);
    assert(a[i + 1] == a.subrange(i, i + 4)[1]);
    assert(a[i + 2] == a.subrange(i, i + 4)[2]);
    assert(a[i + 3] == a.subrange(i, i + 4)[3]);
}

/// Reading two bytes that hold `le16(v)` yields `v`.
proof fn lemma_le16_read(a: Seq<u8>, i: int, v: nat)
    requires
        0 <= i,
        i + 2 <= a.len(),
        a.subrange(i, i + 2) == le16(v),
        v <= 0xFFFF,
    ensures
        le16_at(a, i) == v,
{
    lemma_le16_inverse(v);
    assert(a[i] == a.subrange(i, i + 2)[0]);
    assert(a[i + 1] == a.subrange(i, i + 2)[1]);
}

/// The fixed offsets of the end record's variable fields.
#[verifier::rlimit(100)]
proof fn lemma_eocd_fields(count: nat, cd_size: nat, cd_off: nat)
    requires
        count <= 0xFFFF,
        cd_size <= 0xFFFFFFFF,
        cd_off <= 0xFFFFFFFF,
    ensures
        spec_eocd_bytes(count, cd_size, cd_off).len() == 22,
        le16_at(spec_eocd_bytes(count, cd_size, cd_off), 8) == count,
        le32_at(spec_eocd_bytes(count, cd_size, cd_off), 12) == cd_size,
        le32_at(spec_eocd_bytes(count, cd_size, cd_off), 16) == cd_off,
{
    let e = spec_eocd_bytes(count, cd_size, cd_off);
    assert(e.subrange(8, 10) =~= le16(count));
    assert(e.subrange(12, 16) =~= le32(cd_size));
    assert(e.subrange(16, 20) =~= le32(cd_off));
    lemma_le16_read(e, 8, count);
    lemma_le32_read(e, 12, cd_size);
    lemma_le32_read(e, 16, cd_off);
}

/// The fixed offsets of a central directory record's variable fields.
#[verifier::rlimit(100)]
proof fn lemma_central_record_fields(name: Seq<u8>, crc: nat, cs: nat, us: nat, off: nat)
    requires
        name.len() <= 0xFFFF,
        crc <= 0xFFFFFFFF,
        cs <= 0xFFFFFFFF,
        us <= 0xFFFFFFFF,
        off <= 0xFFFFFFFF,
    ensures
        spec_central_record(name, crc, cs, us, off).len() == 46 + name.len(),
        le32_at(spec_central_record(name, crc, cs, us, off), 16) == crc,
        le32_at(spec_central_record(name, crc, cs, us, off), 20) == cs,
        le32_at(spec_central_record(name, crc, cs, us, off), 24) == us,
        le16_at(spec_central_record(name, crc, cs, us, off), 28) == name.len(),
        le32_at(spec_central_record(name, crc, cs, us, off), 42) == off,
        spec_central_record(name, crc, cs, us, off).subrange(46, 46 + name.len() as int) == name,
{
    let r = spec_central_record(name, crc, cs, us, off);
    assert(r.subrange(16, 20) =~= le32(crc));
    assert(r.subrange(20, 24) =~= le32(cs));
    assert(r.subrange(24, 28) =~= le32(us));
    assert(r.subrange(28, 30) =~= le16(name.len()));
    assert(r.subrange(42, 46) =~= le32(off));
    assert(r.subrange(46, 46 + name.len() as int) =~= name);
    lemma_le32_read(r, 16, crc);
    lemma_le32_read(r, 20, cs);
    lemma_le32_read(r, 24, us);
    lemma_le16_read(r, 28, name.len());
    lemma_le32_read(r, 42, off);
}

/// The length of a local file header.
proof fn lemma_local_header_len(name: Seq<u8>)
    ensures
        spec_local_header(name).len() == 30 + name.len(),
{
}

/// A subrange within the left part of a concatenation.
proof fn lemma_subrange_left(a: Seq<u8>, b: Seq<u8>, p: int, q: int)
    requires
        0 <= p <= q <= a.len(),
    ensures
        (a + b).subrange(p, q) == a.subrange(p, q),
{
    assert((a + b).subrange(p, q) =~= a.subrange(p, q));
}

/// A subrange within the right part of a concatenation.
proof fn lemma_subrange_right(a: Seq<u8>, b: Seq<u8>, p: int, q: int)
    requires
        0 <= p <= q <= b.len(),
    ensures
        (a + b).subrange(a.len() + p, a.len() + q) == b.subrange(p, q),
{
    assert((a + b).subrange(a.len() + p, a.len() + q) =~= b.subrange(p, q));
}

/// Record `i` occupies its place inside any longer central prefix.
proof fn lemma_record_in_prefix(files: Seq<(Seq<u8>, Seq<u8>)>, i: int, j: int)
    requires
        0 <= i < j <= files.len(),
    ensures
        spec_central_prefix(files, i).len() + spec_central_record_of(files, i).len()
            <= spec_central_prefix(files, j).len(),
        spec_central_prefix(files, j).subrange(
            spec_central_prefix(files, i).len() as int,
            spec_central_prefix(files, i).len() + spec_central_record_of(files, i).len() as int,
        ) == spec_central_record_of(files, i),
    decreases j,
{
    let pre_i = spec_central_prefix(files, i);
    let rec_i = spec_central_record_of(files, i);
    if j == i + 1 {
        lemma_subrange_right(pre_i, rec_i, 0, rec_i.len() as int);
        assert(rec_i.subrange(0, rec_i.len() as int) =~= rec_i);
    } else {
        lemma_record_in_prefix(files, i, j - 1);
        lemma_subrange_left(
            spec_central_prefix(files, j - 1),
            spec_central_record_of(files, j - 1),
            pre_i.len() as int,
            pre_i.len() + rec_i.len() as int,
        );
    }
}

/// Chunk `i` occupies its place inside the chunk stream.
proof fn lemma_chunk_in_chunks(files: Seq<(Seq<u8>, Seq<u8>)>, i: int)
    requires
        0 <= i < files.len(),
    ensures
        spec_entry_offset(files, i) + spec_entry_chunk(files[i].0, files[i].1).len() as int
            <= spec_chunks(files).len(),
        spec_chunks(files).subrange(
            spec_entry_offset(files, i),
            spec_entry_offset(files, i) + spec_entry_chunk(files[i].0, files[i].1).len() as int,
        ) == spec_entry_chunk(files[i].0, files[i].1),
    decreases files.len(),
{
    let off = spec_entry_offset(files, i);
    let chunk = spec_entry_chunk(files[i].0, files[i].1);
    if i == files.len() - 1 {
        assert(files.subrange(0, i) =~= files.drop_last());
        assert(spec_chunks(files) == spec_chunks(files.drop_last()) + chunk);
        lemma_subrange_right(spec_chunks(files.drop_last()), chunk, 0, chunk.len() as int);
        assert(chunk.subrange(0, chunk.len() as int) =~= chunk);
    } else {
        let shorter = files.drop_last();
        assert(shorter[i] == files[i]);
        assert(shorter.subrange(0, i) =~= files.subrange(0, i));
        lemma_chunk_in_chunks(shorter, i);
        assert(spec_chunks(files) == spec_chunks(shorter) + spec_entry_chunk(
            files.last().0,
            files.last().1,
        ));
        lemma_subrange_left(
            spec_chunks(shorter),
            spec_entry_chunk(files.last().0, files.last().1),
            off,
            off + chunk.len() as int,
        );
    }
}

/// Reading a 32-bit field through an enclosing sequence.
proof fn lemma_le32_at_of_subrange(a: Seq<u8>, p: int, rec: Seq<u8>, i: int)
    requires
        0 <= p,
        p + rec.len() as int <= a.len(),
        a.subrange(p, p + rec.len() as int) == rec,
        0 <= i,
        i + 4 <= rec.len(),
    ensures
        le32_at(a, p + i) == le32_at(rec, i),
{
    assert(a[p + i] == a.subrange(p, p + rec.len() as int)[i]);
    assert(a[p + i + 1] == a.subrange(p, p + rec.len() as int)[i + 1]);
    assert(a[p + i + 2] == a.subrange(p, p + rec.len() as int)[i + 2]);
    assert(a[p + i + 3] == a.subrange(p, p + rec.len() as int)[i + 3]);
}

/// Reading a 16-bit field through an enclosing sequence.
proof fn lemma_le16_at_of_subrange(a: Seq<u8>, p: int, rec: Seq<u8>, i: int)
    requires
        0 <= p,
        p + rec.len() as int <= a.len(),
        a.subrange(p, p + rec.len() as int) == rec,
        0 <= i,
        i + 2 <= rec.len(),
    ensures
        le16_at(a, p + i) == le16_at(rec, i),
{
    assert(a[p + i] == a.subrange(p, p + rec.len() as int)[i]);
    assert(a[p + i + 1] == a.subrange(p, p + rec.len() as int)[i + 1]);
}

/// A subrange of an established subrange.
proof fn lemma_subrange_of_subrange(a: Seq<u8>, p: int, rec: Seq<u8>, x: int, y: int)
    requires
        0 <= p,
        p + rec.len() as int <= a.len(),
        a.subrange(p, p + rec.len() as int) == rec,
        0 <= x <= y <= rec.len(),
    ensures
        a.subrange(p + x, p + y) == rec.subrange(x, y),
{
    assert forall|t: int| 0 <= t < y - x implies #[trigger] a.subrange(p + x, p + y)[t]
        == rec.subrange(x, y)[t] by {
        assert(a[p + x + t] == a.subrange(p, p + rec.len() as int)[x + t]);
    }
    assert(a.subrange(p + x, p + y) =~= rec.subrange(x, y));
}

/// What the extractor reads for one entry out of the archive bytes: the name,
/// the CRC-32, and the compressed bytes found at the recorded offset.
pub open spec fn read_entries(a: Seq<u8>, pos: int, count: nat) -> Seq<(Seq<u8>, nat, Seq<u8>)>
    decreases count,
{
    if count == 0 {
        Seq::empty()
    } else {
        let nlen = le16_at(a, pos + 28) as int;
        let crc = le32_at(a, pos + 16);
        let csize = le32_at(a, pos + 20) as int;
        let off = le32_at(a, pos + 42) as int;
        let name = a.subrange(pos + 46, pos + 46 + nlen);
        let data = a.subrange(off + 30 + nlen, off + 30 + nlen + csize);
        seq![(name, crc, data)] + read_entries(a, pos + 46 + nlen, (count - 1) as nat)
    }
}

/// The whole extraction: entry count and central directory position from the
/// end record, then each entry through its central record.
pub open spec fn spec_read_archive(a: Seq<u8>) -> Seq<(Seq<u8>, nat, Seq<u8>)> {
    let l = a.len() as int;
    let count = le16_at(a, l - 14);
    let cd_off = le32_at(a, l - 6) as int;
    read_entries(a, cd_off, count)
}

/// What extraction must find for the files of an archive: each entry's name,
/// its CRC-32, and its deflate-compressed contents.
pub open spec fn expected_entries(files: Seq<(Seq<u8>, Seq<u8>)>) -> Seq<(Seq<u8>, nat, Seq<u8>)> {
    Seq::new(
        files.len(),
        |i: int| (files[i].0, crc32_of(files[i].1) as nat, deflate_of(files[i].1)),
    )
}

/// Every field of entry `k`, as the extractor reads it out of the whole
/// archive: name length, CRC, compressed size, local offset, the name bytes,
/// and the compressed bytes at the recorded offset.
#[verifier::rlimit(100)]
proof fn lemma_entry_read_at(files: Seq<(Seq<u8>, Seq<u8>)>, a: Seq<u8>, k: int)
    requires
        archive_fits(files),
        a == spec_archive(files),
        0 <= k < files.len(),
    ensures
        ({
            let pos = spec_chunks(files).len() + spec_central_prefix(files, k).len() as int;
            let name = files[k].0;
            let data = files[k].1;
            let d = deflate_of(data);
            let off = spec_entry_offset(files, k);
            &&& le16_at(a, pos + 28) == name.len()
            &&& le32_at(a, pos + 16) == crc32_of(data) as nat
            &&& le32_at(a, pos + 20) == d.len()
            &&& le32_at(a, pos + 42) == off
            &&& a.subrange(pos + 46, pos + 46 + name.len() as int) == name
            &&& a.subrange(off + 30 + name.len() as int, off + 30 + name.len() + d.len() as int)
                == d
            &&& spec_central_prefix(files, k + 1).len() == spec_central_prefix(files, k).len() + 46
                + name.len()
        }),
{
    let n = files.len() as int;
    let chunks = spec_chunks(files);
    let cd = spec_central_dir(files);
    let tail = spec_eocd(files);
    let pre_len = spec_central_prefix(files, k).len() as int;
    let pos = chunks.len() + pre_len;
    let name = files[k].0;
    let data = files[k].1;
    let d = deflate_of(data);
    let rec = spec_central_record_of(files, k);
    let off = spec_entry_offset(files, k);
    let chunk = spec_entry_chunk(name, data);
    // the record's place inside the archive
    lemma_record_in_prefix(files, k, n);
    lemma_central_dir_bounded(files, n);
    assert(files.subrange(0, n) =~= files);
    lemma_subrange_left(
        chunks + cd,
        tail,
        chunks.len() + pre_len,
        chunks.len() + pre_len + rec.len() as int,
    );
    lemma_subrange_right(chunks, cd, pre_len, pre_len + rec.len() as int);
    assert(a.subrange(pos, pos + rec.len() as int) == rec);
    // its fields, read through the archive
    lemma_chunk_in_chunks(files, k);
    assert(0 <= off <= chunks.len());
    lemma_central_record_fields(name, crc32_of(data) as nat, d.len(), data.len(), off as nat);
    lemma_le16_at_of_subrange(a, pos, rec, 28);
    lemma_le32_at_of_subrange(a, pos, rec, 16);
    lemma_le32_at_of_subrange(a, pos, rec, 20);
    lemma_le32_at_of_subrange(a, pos, rec, 42);
    lemma_subrange_of_subrange(a, pos, rec, 46, 46 + name.len() as int);
    // the compressed bytes, read at the recorded offset
    lemma_subrange_left(chunks + cd, tail, off, off + chunk.len() as int);
    lemma_subrange_left(chunks, cd, off, off + chunk.len() as int);
    assert(a.subrange(off, off + chunk.len() as int) == chunk);
    let lh = spec_local_header(name);
    let desc = crate::archive::spec_descriptor(crc32_of(data) as nat, d.len(), data.len());
    lemma_local_header_len(name);
    assert(chunk == (lh + d) + desc);
    lemma_subrange_left(lh + d, desc, lh.len() as int, lh.len() + d.len() as int);
    lemma_subrange_right(lh, d, 0, d.len() as int);
    assert(d.subrange(0, d.len() as int) =~= d);
    assert(chunk.subrange(30 + name.len() as int, 30 + name.len() + d.len() as int) == d);
    lemma_subrange_of_subrange(
        a,
        off,
        chunk,
        30 + name.len() as int,
        30 + name.len() + d.len() as int,
    );
}

/// Extraction of the entries from `k` on, through their central records.
#[verifier::rlimit(100)]
proof fn lemma_read_entries_from(files: Seq<(Seq<u8>, Seq<u8>)>, a: Seq<u8>, k: int)
    requires
        archive_fits(files),
        a == spec_archive(files),
        0 <= k <= files.len(),
    ensures
        read_entries(
            a,
            spec_chunks(files).len() + spec_central_prefix(files, k).len() as int,
            (files.len() - k) as nat,
        ) == expected_entries(files).subrange(k, files.len() as int),
    decreases files.len() - k,
{
    let n = files.len() as int;
    let pos = spec_chunks(files).len() + spec_central_prefix(files, k).len() as int;
    if k == n {
        assert(expected_entries(files).subrange(n, n) =~= Seq::<(Seq<u8>, nat, Seq<u8>)>::empty());
    } else {
        let name = files[k].0;
        let data = files[k].1;
        let d = deflate_of(data);
        lemma_entry_read_at(files, a, k);
        lemma_read_entries_from(files, a, k + 1);
        assert(read_entries(a, pos, (n - k) as nat) == seq![
            (name, crc32_of(data) as nat, d),
        ] + read_entries(a, pos + 46 + name.len() as int, (n - k - 1) as nat));
        assert(expected_entries(files)[k] == (name, crc32_of(data) as nat, d));
        assert(expected_entries(files).subrange(k, n) =~= seq![
            (name, crc32_of(data) as nat, d),
        ] + expected_entries(files).subrange(k + 1, n));
    }
}

/// The container round trip: extracting the archive of `files` recovers
/// exactly the entries that were added, in order — each name, each CRC-32,
/// and each entry's deflate-compressed contents.
#[verifier::rlimit(100)]
pub proof fn lemma_archive_round_trip(files: Seq<(Seq<u8>, Seq<u8>)>)
    requires
        archive_fits(files),
    ensures
        spec_read_archive(spec_archive(files)) == expected_entries(files),
{
    let a = spec_archive(files);
    let chunks = spec_chunks(files);
    let cd = spec_central_dir(files);
    let tail = spec_eocd(files);
    let n = files.len() as int;
    let l = a.len() as int;
    lemma_central_dir_bounded(files, n);
    assert(files.subrange(0, n) =~= files);
    lemma_eocd_fields(files.len(), cd.len(), chunks.len());
    assert(tail.len() == 22);
    assert(a == (chunks + cd) + tail);
    lemma_subrange_right(chunks + cd, tail, 0, 22);
    assert(tail.subrange(0, 22) =~= tail);
    assert(a.subrange(l - 22, l) == tail);
    lemma_le16_at_of_subrange(a, l - 22, tail, 8);
    lemma_le32_at_of_subrange(a, l - 22, tail, 16);
    assert(le16_at(a, l - 14) == files.len());
    assert(le32_at(a, l - 6) == chunks.len());
    lemma_read_entries_from(files, a, 0);
    assert(spec_central_prefix(files, 0).len() == 0);
    assert(expected_entries(files).subrange(0, n) =~= expected_entries(files));
}

} // verus!
