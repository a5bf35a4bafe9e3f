//! Streaming ZIP archiver: the container format is built and verified here,
//! byte by byte; deflate compression and CRC-32 are supplied by outside
//! crates behind trusted wrappers.
//!
//! Entries are emitted one chunk per file (local header, compressed data,
//! data descriptor), so a producer task can hand each chunk to a bounded pipe
//! as soon as it is ready; the central directory and end record follow once
//! the walk is done. The concatenation of everything handed out is proved to
//! be exactly `spec_archive` of the files added, in order. A file's bytes are
//! compressed in one piece: that keeps the whole archive a function of the
//! file contents alone, at the cost of holding one file's bytes at a time
//! while its chunk is built.

use vstd::prelude::*;
use crate::paths::{is_descendant, under_folder};

verus! {

/// Raw-deflate compression of `data`, as `miniz_oxide` computes it at the
/// fixed level used here: a function of the input bytes alone.
pub uninterp spec fn deflate_of(data: Seq<u8>) -> Seq<u8>;

/// The IEEE CRC-32 of `data`.
pub uninterp spec fn crc32_of(data: Seq<u8>) -> u32;

/// Relies on miniz_oxide::deflate::compress_to_vec: raw deflate bytes,
/// determined by the input and the fixed compression level.
#[verifier::external_body]
fn deflate_bytes(data: &Vec<u8>) -> (r: Vec<u8>)
    ensures
        r@ == deflate_of(data@),
{
    miniz_oxide::deflate::compress_to_vec(data.as_slice(), 6)
}

/// Relies on crc32fast::hash: the IEEE CRC-32 of the bytes.
#[verifier::external_body]
fn crc32_bytes(data: &Vec<u8>) -> (r: u32)
    ensures
        r == crc32_of(data@),
{
    crc32fast::hash(data.as_slice())
}

/// The two bytes of `v` in little-endian order.
pub open spec fn le16(v: nat) -> Seq<u8> {
    seq![(v % 256) as u8, ((v / 256) % 256) as u8]
}

/// The four bytes of `v` in little-endian order.
pub open spec fn le32(v: nat) -> Seq<u8> {
    le16(v % 65536) + le16((v / 65536) % 65536)
}

fn push_le16(out: &mut Vec<u8>, v: u16)
    ensures
        final(out)@ == old(out)@ + le16(v as nat),
{
    out.push((v % 256) as u8);
    out.push((v / 256) as u8);
    proof {
        assert(final(out)@ =~= old(out)@ + le16(v as nat));
    }
}

fn push_le32(out: &mut Vec<u8>, v: u32)
    ensures
        final(out)@ == old(out)@ + le32(v as nat),
{
    proof {
        assert(v % 65536 % 256 == v % 256) by (bit_vector);
        assert((v % 65536) / 256 % 256 == (v / 256) % 256) by (bit_vector);
        assert((v / 65536) % 65536 % 256 == (v / 65536) % 256) by (bit_vector);
        assert(((v / 65536) % 65536) / 256 % 256 == (v / 16777216) % 256) by (bit_vector);
        assert((v / 16777216) % 256 < 256);
    }
    out.push((v % 256) as u8);
    out.push(((v / 256) % 256) as u8);
    out.push(((v / 65536) % 256) as u8);
    out.push(((v / 16777216) % 256) as u8);
    proof {
        assert(final(out)@ =~= old(out)@ + le32(v as nat));
    }
}

fn push_bytes(out: &mut Vec<u8>, bytes: &Vec<u8>)
    ensures
        final(out)@ == old(out)@ + bytes@,
{
    let n = bytes.len();
    let mut i: usize = 0;
    while i < n
        invariant
            0 <= i <= n,
            n == bytes@.len(),
            out@ == old(out)@ + bytes@.subrange(0, i as int),
        decreases n - i,
    {
        out.push(bytes[i]);
        proof {
            assert(out@ =~= old(out)@ + bytes@.subrange(0, i + 1));
        }
        i = i + 1;
    }
    proof {
        assert(bytes@.subrange(0, n as int) =~= bytes@);
    }
}

/// General-purpose flags used for every entry: bit 3 (sizes in a trailing
/// data descriptor) and bit 11 (UTF-8 names).
pub const GP_FLAGS: u16 = 0x0808;

/// The local file header of an entry named `name`: written before the data,
/// with zero sizes, since sizes and CRC follow in the data descriptor.
pub open spec fn spec_local_header(name: Seq<u8>) -> Seq<u8> {
    le32(0x04034B50) + le16(20) + le16(GP_FLAGS as nat) + le16(8) + le16(0) + le16(0) + le32(0)
        + le32(0) + le32(0) + le16(name.len()) + le16(0) + name
}

/// The data descriptor that closes an entry: signature, CRC-32, compressed
/// and uncompressed sizes.
pub open spec fn spec_descriptor(crc: nat, csize: nat, usz: nat) -> Seq<u8> {
    le32(0x08074B50) + le32(crc) + le32(csize) + le32(usz)
}

/// Everything the stream emits for one file: local header, deflate data,
/// data descriptor.
pub open spec fn spec_entry_chunk(name: Seq<u8>, data: Seq<u8>) -> Seq<u8> {
    spec_local_header(name) + deflate_of(data) + spec_descriptor(
        crc32_of(data) as nat,
        deflate_of(data).len(),
        data.len(),
    )
}

/// The concatenation of the entry chunks of `files`, in order.
pub open spec fn spec_chunks(files: Seq<(Seq<u8>, Seq<u8>)>) -> Seq<u8>
    decreases files.len(),
{
    if files.len() == 0 {
        Seq::empty()
    } else {
        spec_chunks(files.drop_last()) + spec_entry_chunk(files.last().0, files.last().1)
    }
}

/// The stream offset at which entry `i` of `files` begins.
pub open spec fn spec_entry_offset(files: Seq<(Seq<u8>, Seq<u8>)>, i: int) -> int {
    spec_chunks(files.subrange(0, i)).len() as int
}

/// The central directory record of one entry.
pub open spec fn spec_central_record(name: Seq<u8>, crc: nat, csize: nat, usz: nat, off: nat)
    -> Seq<u8> {
    le32(0x02014B50) + le16(20) + le16(20) + le16(GP_FLAGS as nat) + le16(8) + le16(0) + le16(0)
        + le32(crc) + le32(csize) + le32(usz) + le16(name.len()) + le16(0) + le16(0) + le16(0)
        + le16(0) + le32(0) + le32(off) + name
}

/// The central record of entry `i` of `files`.
pub open spec fn spec_central_record_of(files: Seq<(Seq<u8>, Seq<u8>)>, i: int) -> Seq<u8> {
    spec_central_record(
        files[i].0,
        crc32_of(files[i].1) as nat,
        deflate_of(files[i].1).len(),
        files[i].1.len(),
        spec_entry_offset(files, i) as nat,
    )
}

/// The first `i` central directory records, concatenated.
pub open spec fn spec_central_prefix(files: Seq<(Seq<u8>, Seq<u8>)>, i: int) -> Seq<u8>
    decreases i,
{
    if i <= 0 {
        Seq::empty()
    } else {
        spec_central_prefix(files, i - 1) + spec_central_record_of(files, i - 1)
    }
}

/// The whole central directory of `files`.
pub open spec fn spec_central_dir(files: Seq<(Seq<u8>, Seq<u8>)>) -> Seq<u8> {
    spec_central_prefix(files, files.len() as int)
}

/// The end-of-central-directory record, from its three variable fields.
pub open spec fn spec_eocd_bytes(count: nat, cd_size: nat, cd_off: nat) -> Seq<u8> {
    le32(0x06054B50) + le16(0) + le16(0) + le16(count) + le16(count) + le32(cd_size) + le32(cd_off)
        + le16(0)
}

/// The end-of-central-directory record.
pub open spec fn spec_eocd(files: Seq<(Seq<u8>, Seq<u8>)>) -> Seq<u8> {
    spec_eocd_bytes(files.len(), spec_central_dir(files).len(), spec_chunks(files).len())
}

/// The complete ZIP archive of `files`: all entry chunks, the central
/// directory, and the end record.
pub open spec fn spec_archive(files: Seq<(Seq<u8>, Seq<u8>)>) -> Seq<u8> {
    spec_chunks(files) + spec_central_dir(files) + spec_eocd(files)
}

/// What `add_file` needs so that all ZIP32 fields stay faithful: name length
/// in 16 bits, sizes and offsets in 32 bits, entry count in 16 bits.
pub open spec fn entry_fits(files: Seq<(Seq<u8>, Seq<u8>)>, name: Seq<u8>, data: Seq<u8>) -> bool {
    &&& name.len() <= 0xFFFF
    &&& data.len() <= 0xFFFFFFFF
    &&& deflate_of(data).len() <= 0xFFFFFFFF
    &&& files.len() < 0xFFFF
    &&& spec_chunks(files).len() + spec_entry_chunk(name, data).len() <= 0xFFFFFFFF
}

struct EntryRecord {
    name: Vec<u8>,
    crc: u32,
    csize: u32,
    usz: u32,
    offset: u32,
}

/// Appends one central directory record to `out`.
#[verifier::rlimit(100)]
fn push_central_record(out: &mut Vec<u8>, rec: &EntryRecord)
    ensures
        final(out)@ == old(out)@ + spec_central_record(
            rec.name@,
            rec.crc as nat,
            rec.csize as nat,
            rec.usz as nat,
            rec.offset as nat,
        ),
{
    push_le32(out, 0x02014B50);
    push_le16(out, 20);
    push_le16(out, 20);
    push_le16(out, GP_FLAGS);
    push_le16(out, 8);
    push_le16(out, 0);
    push_le16(out, 0);
    push_le32(out, rec.crc);
    push_le32(out, rec.csize);
    push_le32(out, rec.usz);
    push_le16(out, (rec.name.len() % 65536) as u16);
    push_le16(out, 0);
    push_le16(out, 0);
    push_le16(out, 0);
    push_le16(out, 0);
    push_le32(out, 0);
    push_le32(out, rec.offset);
    push_bytes(out, &rec.name);
    proof {
        assert(final(out)@ =~= old(out)@ + spec_central_record(
            rec.name@,
            rec.crc as nat,
            rec.csize as nat,
            rec.usz as nat,
            rec.offset as nat,
        ));
    }
}

/// Appends the end-of-central-directory record to `out`.
#[verifier::rlimit(100)]
fn push_eocd(out: &mut Vec<u8>, count: u16, cd_size: u32, cd_off: u32)
    ensures
        final(out)@ == old(out)@ + spec_eocd_bytes(count as nat, cd_size as nat, cd_off as nat),
{
    push_le32(out, 0x06054B50);
    push_le16(out, 0);
    push_le16(out, 0);
    push_le16(out, count);
    push_le16(out, count);
    push_le32(out, cd_size);
    push_le32(out, cd_off);
    push_le16(out, 0);
    proof {
        assert(final(out)@ =~= old(out)@ + spec_eocd_bytes(
            count as nat,
            cd_size as nat,
            cd_off as nat,
        ));
    }
}



/// One in-flight ZIP archive job: hands out one byte chunk per file added,
/// accumulates the central directory, and finishes with the footer bytes.
/// The concatenation of all chunks and the finish bytes is `spec_archive` of
/// the files added.
pub struct ZipStream {
    records: Vec<EntryRecord>,
    offset: u32,
    files: Ghost<Seq<(Seq<u8>, Seq<u8>)>>,
}

impl ZipStream {
    /// The files added so far: (entry name, file contents) pairs.
    pub closed spec fn files(&self) -> Seq<(Seq<u8>, Seq<u8>)> {
        self.files@
    }

    /// Internal consistency: records mirror `files` and `offset` is the
    /// number of bytes emitted so far.
    pub closed spec fn wf(&self) -> bool {
        &&& self.records@.len() == self.files@.len()
        &&& self.files@.len() <= 0xFFFF
        &&& forall|i: int|
            0 <= i < self.records@.len() ==> {
                &&& (#[trigger] self.records@[i]).name@ == self.files@[i].0
                &&& self.records@[i].crc == crc32_of(self.files@[i].1)
                &&& self.records@[i].csize == deflate_of(self.files@[i].1).len()
                &&& self.records@[i].usz == self.files@[i].1.len()
                &&& self.records@[i].offset == spec_entry_offset(self.files@, i)
                &&& self.records@[i].name@.len() <= 0xFFFF
            }
        &&& self.offset == spec_chunks(self.files@).len()
    }

    pub fn new() -> (r: ZipStream)
        ensures
            r.wf(),
            r.files() == Seq::<(Seq<u8>, Seq<u8>)>::empty(),
    {
        let r = ZipStream { records: Vec::new(), offset: 0, files: Ghost(Seq::empty()) };
        proof {
            assert(spec_chunks(r.files@) =~= Seq::<u8>::empty());
        }
        r
    }

    /// Adds one file and returns the bytes to emit for it: local header,
    /// deflate-compressed contents, data descriptor. Returns `None` exactly
    /// when a ZIP32 field would overflow; the stream is unchanged then.
    #[verifier::rlimit(100)]
    pub fn add_file(&mut self, name: &Vec<u8>, data: &Vec<u8>) -> (r: Option<Vec<u8>>)
        requires
            old(self).wf(),
        ensures
            final(self).wf(),
            r matches Some(chunk) ==> {
                &&& final(self).files() == old(self).files().push((name@, data@))
                &&& chunk@ == spec_entry_chunk(name@, data@)
                &&& spec_chunks(final(self).files()) == spec_chunks(old(self).files()) + chunk@
            },
            r is None ==> *final(self) == *old(self),
            r is Some <==> entry_fits(old(self).files(), name@, data@),
    {
        let deflated = deflate_bytes(data);
        let crc = crc32_bytes(data);
        if name.len() > 0xFFFF {
            return None;
        }
        if self.records.len() >= 0xFFFF {
            return None;
        }
        let data_len64 = data.len() as u64;
        let deflated_len64 = deflated.len() as u64;
        if data_len64 > 0xFFFFFFFF || deflated_len64 > 0xFFFFFFFF {
            return None;
        }
        let chunk_len64: u64 = 46 + (name.len() as u64) + deflated_len64;
        if (self.offset as u64) + chunk_len64 > 0xFFFFFFFF {
            proof {
                assert(spec_entry_chunk(name@, data@).len() == 46 + name@.len()
                    + deflate_of(data@).len());
            }
            return None;
        }
        let mut chunk: Vec<u8> = Vec::new();
        // local file header
        push_le32(&mut chunk, 0x04034B50);
        push_le16(&mut chunk, 20);
        push_le16(&mut chunk, GP_FLAGS);
        push_le16(&mut chunk, 8);
        push_le16(&mut chunk, 0);
        push_le16(&mut chunk, 0);
        push_le32(&mut chunk, 0);
        push_le32(&mut chunk, 0);
        push_le32(&mut chunk, 0);
        push_le16(&mut chunk, name.len() as u16);
        push_le16(&mut chunk, 0);
        push_bytes(&mut chunk, name);
        proof {
            assert(chunk@ =~= spec_local_header(name@));
        }
        // compressed data
        push_bytes(&mut chunk, &deflated);
        // data descriptor
        push_le32(&mut chunk, 0x08074B50);
        push_le32(&mut chunk, crc);
        push_le32(&mut chunk, deflated.len() as u32);
        push_le32(&mut chunk, data.len() as u32);
        proof {
            assert(chunk@ =~= spec_entry_chunk(name@, data@));
        }
        let record = EntryRecord {
            name: slice_to_vec_u8(name),
            crc,
            csize: deflated.len() as u32,
            usz: data.len() as u32,
            offset: self.offset,
        };
        let ghost old_files = self.files@;
        self.records.push(record);
        self.offset = self.offset + (chunk_len64 as u32);
        proof {
            self.files@ = old_files.push((name@, data@));
            lemma_chunks_push(old_files, name@, data@);
            assert forall|i: int| 0 <= i < self.records@.len() implies {
                &&& (#[trigger] self.records@[i]).name@ == self.files@[i].0
                &&& self.records@[i].crc == crc32_of(self.files@[i].1)
                &&& self.records@[i].csize == deflate_of(self.files@[i].1).len()
                &&& self.records@[i].usz == self.files@[i].1.len()
                &&& self.records@[i].offset == spec_entry_offset(self.files@, i)
                &&& self.records@[i].name@.len() <= 0xFFFF
            } by {
                assert(self.files@.subrange(0, i) =~= old_files.subrange(0, i));
                if i < self.records@.len() - 1 {
                    assert(self.records@[i] == old(self).records@[i]);
                    assert(self.files@[i] == old_files[i]);
                } else {
                    assert(self.files@.subrange(0, i) =~= old_files);
                }
            }
        }
        Some(chunk)
    }

    /// Writes the central directory and end record: the bytes that close the
    /// stream after the last entry chunk. Everything emitted, concatenated,
    /// is exactly the ZIP archive of the files added.
    #[verifier::rlimit(100)]
    pub fn finish(self) -> (r: Vec<u8>)
        requires
            self.wf(),
        ensures
            r@ == spec_central_dir(self.files()) + spec_eocd(self.files()),
            spec_chunks(self.files()) + r@ == spec_archive(self.files()),
            archive_fits(self.files()),
    {
        proof {
            self.lemma_stream_fits();
        }
        let ghost files = self.files@;
        let mut out: Vec<u8> = Vec::new();
        let n = self.records.len();
        let mut i: usize = 0;
        while i < n
            invariant
                0 <= i <= n,
                n == self.records@.len(),
                self.wf(),
                files == self.files@,
                out@ == spec_central_prefix(files, i as int),
            decreases n - i,
        {
            let ghost old_out = out@;
            push_central_record(&mut out, &self.records[i]);
            proof {
                let rec = self.records@[i as int];
                assert(out@ == old_out + spec_central_record(
                    rec.name@,
                    rec.crc as nat,
                    rec.csize as nat,
                    rec.usz as nat,
                    rec.offset as nat,
                ));
                assert(spec_central_record_of(files, i as int) == spec_central_record(
                    rec.name@,
                    rec.crc as nat,
                    rec.csize as nat,
                    rec.usz as nat,
                    rec.offset as nat,
                ));
                assert(spec_central_prefix(files, i + 1) == spec_central_prefix(files, i as int)
                    + spec_central_record_of(files, i as int));
            }
            i = i + 1;
        }
        proof {
            lemma_central_dir_bounded(files, files.len() as int);
            assert(files.subrange(0, files.len() as int) =~= files);
            assert(out@ == spec_central_dir(files));
        }
        let cd_size = out.len() as u32;
        let count = self.records.len() as u16;
        let ghost cd = out@;
        push_eocd(&mut out, count, cd_size, self.offset);
        proof {
            assert(count as nat == files.len());
            assert(cd_size as nat == spec_central_dir(files).len());
            assert(self.offset as nat == spec_chunks(files).len());
            assert(spec_eocd_bytes(count as nat, cd_size as nat, self.offset as nat) == spec_eocd(
                files,
            ));
            assert(out@ == spec_central_dir(files) + spec_eocd(files));
            assert(spec_chunks(files) + out@ =~= spec_archive(files));
        }
        out
    }
}

/// Copies a byte vector.
fn slice_to_vec_u8(v: &Vec<u8>) -> (r: Vec<u8>)
    ensures
        r@ == v@,
{
    let n = v.len();
    let mut r: Vec<u8> = Vec::new();
    let mut i: usize = 0;
    while i < n
        invariant
            0 <= i <= n,
            n == v@.len(),
            r@ == v@.subrange(0, i as int),
        decreases n - i,
    {
        r.push(v[i]);
        proof {
            assert(r@ =~= v@.subrange(0, i + 1));
        }
        i = i + 1;
    }
    proof {
        assert(v@.subrange(0, n as int) =~= v@);
    }
    r
}

/// Appending a file extends the chunk stream by exactly its entry chunk.
proof fn lemma_chunks_push(files: Seq<(Seq<u8>, Seq<u8>)>, name: Seq<u8>, data: Seq<u8>)
    ensures
        spec_chunks(files.push((name, data))) == spec_chunks(files) + spec_entry_chunk(name, data),
{
    assert(files.push((name, data)).drop_last() =~= files);
    assert(files.push((name, data)).last() == (name, data));
}

/// Bounds under which every ZIP32 field of the archive is faithful: what
/// `add_file` enforces entry by entry.
pub open spec fn archive_fits(files: Seq<(Seq<u8>, Seq<u8>)>) -> bool {
    &&& files.len() <= 0xFFFF
    &&& spec_chunks(files).len() <= 0xFFFFFFFF
    &&& forall|i: int|
        0 <= i < files.len() ==> {
            &&& (#[trigger] files[i]).0.len() <= 0xFFFF
            &&& files[i].1.len() <= 0xFFFFFFFF
            &&& deflate_of(files[i].1).len() <= 0xFFFFFFFF
        }
}

impl ZipStream {
    /// A well-formed stream only ever holds entries within the ZIP32 bounds.
    pub proof fn lemma_stream_fits(&self)
        requires
            self.wf(),
        ensures
            archive_fits(self.files()),
    {
        assert forall|i: int| 0 <= i < self.files().len() implies {
            &&& (#[trigger] self.files()[i]).0.len() <= 0xFFFF
            &&& self.files()[i].1.len() <= 0xFFFFFFFF
            &&& deflate_of(self.files()[i].1).len() <= 0xFFFFFFFF
        } by {
            assert(self.records@[i].name@ == self.files()[i].0);
        }
    }
}

/// Each central record is no longer than its entry chunk, so the central
/// directory fits wherever the chunk stream fits.
#[verifier::rlimit(100)]
pub proof fn lemma_central_dir_bounded(files: Seq<(Seq<u8>, Seq<u8>)>, i: int)
    requires
        0 <= i <= files.len(),
    ensures
        spec_central_prefix(files, i).len() <= spec_chunks(files.subrange(0, i)).len(),
    decreases i,
{
    if i > 0 {
        lemma_central_dir_bounded(files, i - 1);
        assert(files.subrange(0, i).drop_last() =~= files.subrange(0, i - 1));
        assert(files.subrange(0, i).last() == files[i - 1]);
        assert(spec_chunks(files.subrange(0, i)) == spec_chunks(files.subrange(0, i - 1))
            + spec_entry_chunk(files[i - 1].0, files[i - 1].1));
        assert(spec_central_record_of(files, i - 1).len() == 46 + files[i - 1].0.len());
        assert(spec_entry_chunk(files[i - 1].0, files[i - 1].1).len() == 46 + files[i - 1].0.len()
            + deflate_of(files[i - 1].1).len());
    }
}

/// One directory-to-ZIP walk: the explicit depth-first worklist of pending
/// directories (named relative to the parent of the requested root) together
/// with the ZIP stream being produced. The transport layer pops a directory,
/// reads it, pushes the subdirectory names back and feeds the file contents
/// through; the worklist discipline, the entry-name discipline (every entry
/// named under the one root folder) and every emitted byte are pinned here.
pub struct ArchiveWalk {
    stack: Vec<String>,
    current: Option<String>,
    zip: ZipStream,
    root: Ghost<Seq<char>>,
    names: Ghost<Seq<Seq<char>>>,
}

impl ArchiveWalk {
    /// The name of the requested root directory: the single top-level folder
    /// of the archive.
    pub closed spec fn root_name(&self) -> Seq<char> {
        self.root@
    }

    /// The directories still to be visited, deepest-pushed last; each is a
    /// descendant of the root folder.
    pub closed spec fn pending(&self) -> Seq<Seq<char>> {
        self.stack@.map_values(|s: String| s@)
    }

    /// Whether a directory is currently being read (a `next_dir` succeeded).
    pub closed spec fn in_dir(&self) -> bool {
        self.current is Some
    }

    /// The directory currently being read.
    pub closed spec fn current_dir(&self) -> Seq<char> {
        self.current->0@
    }

    /// The files archived so far, as (entry name bytes, contents) pairs.
    pub closed spec fn files(&self) -> Seq<(Seq<u8>, Seq<u8>)> {
        self.zip.files()
    }

    /// The archived entry names, as character strings; entry `i` of `files`
    /// carries the UTF-8 bytes of `names()[i]`.
    pub closed spec fn names(&self) -> Seq<Seq<char>> {
        self.names@
    }

    pub closed spec fn wf(&self) -> bool {
        &&& self.zip.wf()
        &&& self.names@.len() == self.zip.files().len()
        &&& forall|i: int|
            0 <= i < self.names@.len() ==> {
                &&& self.zip.files()[i].0 == vstd::utf8::encode_utf8(#[trigger] self.names@[i])
                &&& under_folder(self.root@, self.names@[i])
            }
        &&& forall|i: int|
            0 <= i < self.pending().len() ==> is_descendant(
                self.root@,
                #[trigger] self.pending()[i],
            )
        &&& (self.in_dir() ==> is_descendant(self.root@, self.current_dir()))
    }

    /// Starts a walk at the requested directory: the worklist holds it alone,
    /// and every entry name the walk ever archives lies under it.
    pub fn new(root_name: String) -> (r: ArchiveWalk)
        ensures
            r.wf(),
            r.root_name() == root_name@,
            r.pending() == seq![root_name@],
            r.files() == Seq::<(Seq<u8>, Seq<u8>)>::empty(),
            r.names() == Seq::<Seq<char>>::empty(),
            !r.in_dir(),
    {
        let mut stack: Vec<String> = Vec::new();
        let ghost name_view = root_name@;
        stack.push(root_name);
        let r = ArchiveWalk {
            stack,
            current: None,
            zip: ZipStream::new(),
            root: Ghost(name_view),
            names: Ghost(Seq::empty()),
        };
        proof {
            assert(r.pending() =~= seq![name_view]);
        }
        r
    }

    /// Pops the next directory to read, depth first, and makes it current:
    /// subsequent `push_dir` and `add_file` calls name their entries under
    /// it. Returns `None` when the worklist is empty.
    pub fn next_dir(&mut self) -> (r: Option<String>)
        requires
            old(self).wf(),
        ensures
            final(self).wf(),
            final(self).files() == old(self).files(),
            final(self).names() == old(self).names(),
            final(self).root_name() == old(self).root_name(),
            old(self).pending().len() == 0 ==> ({
                &&& r is None
                &&& !final(self).in_dir()
                &&& final(self).pending() == old(self).pending()
            }),
            old(self).pending().len() > 0 ==> ({
                &&& r matches Some(d) && d@ == old(self).pending().last()
                &&& final(self).pending() == old(self).pending().drop_last()
                &&& final(self).in_dir()
                &&& final(self).current_dir() == old(self).pending().last()
            }),
    {
        match self.stack.pop() {
            Some(d) => {
                let out = d.clone();
                self.current = Some(d);
                proof {
                    assert(final(self).pending() =~= old(self).pending().drop_last());
                    let ghost last = old(self).pending().len() - 1;
                    assert(is_descendant(self.root@, old(self).pending()[last]));
                    assert forall|i: int| 0 <= i < final(self).pending().len() implies is_descendant(
                        self.root@,
                        #[trigger] final(self).pending()[i],
                    ) by {
                        assert(final(self).pending()[i] == old(self).pending()[i]);
                    }
                }
                Some(out)
            },
            None => {
                self.current = None;
                None
            },
        }
    }

    /// Defers the subdirectory `name` of the current directory: it will be
    /// visited before anything pushed earlier. Without a current directory
    /// nothing changes.
    pub fn push_dir(&mut self, name: &str)
        requires
            old(self).wf(),
        ensures
            final(self).wf(),
            final(self).files() == old(self).files(),
            final(self).names() == old(self).names(),
            final(self).root_name() == old(self).root_name(),
            final(self).in_dir() == old(self).in_dir(),
            old(self).in_dir() ==> final(self).current_dir() == old(self).current_dir(),
            old(self).in_dir() ==> final(self).pending() == old(self).pending().push(
                old(self).current_dir() + seq!['/'] + name@,
            ),
            !old(self).in_dir() ==> final(self).pending() == old(self).pending(),
    {
        match &self.current {
            Some(cur) => {
                let mut p = cur.clone();
                p.append("/");
                p.append(name);
                proof {
                    reveal_strlit("/");
                    assert(p@ =~= old(self).current_dir() + seq!['/'] + name@);
                    crate::paths::lemma_join_stays_under(
                        self.root@,
                        old(self).current_dir(),
                        name@,
                    );
                }
                let ghost p_view = p@;
                self.stack.push(p);
                proof {
                    assert(final(self).pending() =~= old(self).pending().push(p_view));
                }
            },
            None => {},
        }
    }

    /// Archives one file of the current directory under the entry name
    /// `current/name` and returns the bytes to emit for it. `None` when no
    /// directory is current, or exactly when a ZIP32 field would overflow;
    /// the stream is unchanged then.
    #[verifier::rlimit(100)]
    pub fn add_file(&mut self, name: &str, data: &Vec<u8>) -> (r: Option<Vec<u8>>)
        requires
            old(self).wf(),
        ensures
            final(self).wf(),
            final(self).pending() == old(self).pending(),
            final(self).root_name() == old(self).root_name(),
            final(self).in_dir() == old(self).in_dir(),
            old(self).in_dir() ==> final(self).current_dir() == old(self).current_dir(),
            r matches Some(chunk) ==> ({
                let entry = old(self).current_dir() + seq!['/'] + name@;
                &&& old(self).in_dir()
                &&& final(self).names() == old(self).names().push(entry)
                &&& final(self).files() == old(self).files().push(
                    (vstd::utf8::encode_utf8(entry), data@),
                )
                &&& chunk@ == spec_entry_chunk(vstd::utf8::encode_utf8(entry), data@)
                &&& spec_chunks(final(self).files()) == spec_chunks(old(self).files()) + chunk@
            }),
            r is None ==> final(self).files() == old(self).files() && final(self).names() == old(
                self,
            ).names(),
            old(self).in_dir() ==> (r is Some <==> entry_fits(
                old(self).files(),
                vstd::utf8::encode_utf8(old(self).current_dir() + seq!['/'] + name@),
                data@,
            )),
            !old(self).in_dir() ==> r is None,
    {
        let entry: String = match &self.current {
            Some(cur) => {
                let mut p = cur.clone();
                p.append("/");
                p.append(name);
                p
            },
            None => {
                return None;
            },
        };
        proof {
            reveal_strlit("/");
            assert(entry@ =~= old(self).current_dir() + seq!['/'] + name@);
        }
        let name_bytes = entry.as_str().as_bytes_vec();
        proof {
            assert(name_bytes@ == vstd::utf8::encode_utf8(entry@));
        }
        let r = self.zip.add_file(&name_bytes, data);
        proof {
            if r is Some {
                self.names@ = old(self).names@.push(entry@);
                crate::paths::lemma_join_stays_under(self.root@, old(self).current_dir(), name@);
                assert(self.zip.files().last() == (name_bytes@, data@));
                assert(self.names@.last() == entry@);
                assert(under_folder(self.root@, entry@));
                assert forall|i: int| 0 <= i < self.names@.len() implies {
                    &&& self.zip.files()[i].0 == vstd::utf8::encode_utf8(
                        #[trigger] self.names@[i],
                    )
                    &&& under_folder(self.root@, self.names@[i])
                } by {
                    if i < self.names@.len() - 1 {
                        assert(self.names@[i] == old(self).names@[i]);
                        assert(self.zip.files()[i] == old(self).zip.files()[i]);
                    }
                }
            }
            assert(self.pending() == old(self).pending());
        }
        r
    }

    /// Closes the walk: the central directory and end record. Concatenated
    /// after all emitted chunks, the stream is exactly the ZIP archive of the
    /// files added, and every archived entry name lies strictly under the one
    /// root folder.
    pub fn finish(self) -> (r: Vec<u8>)
        requires
            self.wf(),
        ensures
            spec_chunks(self.files()) + r@ == spec_archive(self.files()),
            archive_fits(self.files()),
            self.names().len() == self.files().len(),
            forall|i: int|
                0 <= i < self.files().len() ==> {
                    &&& self.files()[i].0 == vstd::utf8::encode_utf8(#[trigger] self.names()[i])
                    &&& under_folder(self.root_name(), self.names()[i])
                },
    {
        self.zip.finish()
    }
}

} // verus!
