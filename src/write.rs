use vstd::prelude::*;

use crate::entry::Entry;
use git_hash::Kind as HashKind;
use crate::extension::{
    end_of_index_entry_sig, end_of_index_entry_signature, tree_sig, tree_signature, Extensions,
    Signature,
};
use crate::hash::{default_kind, digest, sha1_of};

verus! {

broadcast use vstd::array::group_array_axioms;

/// The largest number of bytes an index can hold: offsets are 32-bit.
pub open spec fn max_size() -> nat {
    0xffff_ffff
}

/// The four big-endian bytes of `n`.
pub open spec fn be32(n: nat) -> Seq<u8> {
    seq![((n / 0x100_0000) % 256) as u8, ((n / 0x1_0000) % 256) as u8, ((n / 256) % 256) as u8, (n % 256) as u8]
}

/// The magic tag that opens an index, `DIRC`.
pub open spec fn magic() -> Seq<u8> {
    seq![68u8, 73u8, 82u8, 67u8]
}

/// `n` zero bytes.
pub open spec fn zeros(n: nat) -> Seq<u8> {
    Seq::new(n, |i: int| 0u8)
}

/// How many zero bytes bring `k` bytes up to a multiple of 8.
pub open spec fn pad_len(k: nat) -> nat {
    if k % 8 == 0 { 0 } else { (8 - k % 8) as nat }
}

/// The version of the on-disk format.
#[derive(Debug, Copy, Clone, PartialEq, Eq, Structural)]
pub enum Version {
    V2,
    V3,
    V4,
}

impl Version {
    /// The number that stands for this version in the header.
    pub open spec fn number(self) -> nat {
        match self {
            Version::V2 => 2,
            Version::V3 => 3,
            Version::V4 => 4,
        }
    }
}

/// Why an index could not be written.
#[derive(Debug, Copy, Clone, PartialEq, Eq, Structural)]
pub enum WriteError {
    /// Only version 2 of the format can be written.
    UnsupportedVersion,
    /// More entries than a 32-bit count can hold.
    EntryCountOverflow,
    /// The index would be larger than 32-bit offsets can address.
    TooLarge,
}

/// The fixed header: magic, version and entry count.
pub open spec fn header_bytes(version: nat, num_entries: nat) -> Seq<u8> {
    magic() + be32(version) + be32(num_entries)
}

/// The entry records, each followed by the zero bytes that align the running count to 8,
/// where `base` bytes were written since the header before the first record.
pub open spec fn entries_block(base: nat, records: Seq<Seq<u8>>) -> Seq<u8>
    decreases records.len(),
{
    if records.len() == 0 {
        Seq::empty()
    } else {
        let with = entries_block(base, records.drop_last()) + records.last();
        with + zeros(pad_len(base + with.len()))
    }
}

/// The encoded records of `entries`, in order.
pub open spec fn records_of(entries: Seq<Entry>) -> Seq<Seq<u8>> {
    entries.map_values(|e: Entry| e.record@)
}

/// The bytes of a table of contents: each signature followed by its payload size.
pub open spec fn toc_bytes(toc: Seq<(Seq<u8>, u32)>) -> Seq<u8>
    decreases toc.len(),
{
    if toc.len() == 0 {
        Seq::empty()
    } else {
        toc_bytes(toc.drop_last()) + toc.last().0 + be32(toc.last().1 as nat)
    }
}

/// The end-of-index-entry extension for extensions starting at `offset` and listed in `toc`.
pub open spec fn end_of_index_entry_block(offset: nat, toc: Seq<(Seq<u8>, u32)>) -> Seq<u8> {
    end_of_index_entry_signature() + be32(24) + be32(offset) + sha1_of(toc_bytes(toc))
}

/// An extension block: signature, payload size and payload.
pub open spec fn extension_block(sig: Seq<u8>, payload: Seq<u8>) -> Seq<u8> {
    sig + be32(payload.len()) + payload
}

/// A table of contents with each signature as its bytes.
pub open spec fn toc_view(toc: Seq<(Signature, u32)>) -> Seq<(Seq<u8>, u32)> {
    toc.map_values(|p: (Signature, u32)| (p.0@, p.1))
}

/// An in-memory index: its entries, sorted by path, and the payload of its cached-tree
/// extension, if it has one.
pub struct State {
    pub entries: Vec<Entry>,
    pub tree: Option<Vec<u8>>,
}

/// A byte sink that counts what was written to it.
pub struct CountBytes {
    /// The number of bytes written so far.
    pub count: u32,
    /// Where the bytes go.
    pub inner: Vec<u8>,
}

impl CountBytes {
    /// Counts what is written to `inner`, starting from zero.
    pub fn new(inner: Vec<u8>) -> (r: Self)
        ensures
            r.count == 0,
            r.inner@ == inner@,
    {
        CountBytes { inner, count: 0 }
    }

    /// Appends all of `buf`, unless the count would no longer fit 32 bits; then nothing changes.
    pub fn write(&mut self, buf: &[u8]) -> (r: Result<usize, WriteError>)
        ensures
            old(self).count + buf@.len() <= max_size() <==> r.is_ok(),
            match r {
                Ok(n) => n == buf@.len() && final(self).count == old(self).count + buf@.len()
                    && final(self).inner@ == old(self).inner@ + buf@,
                Err(e) => e == WriteError::TooLarge && *final(self) == *old(self),
            },
    {
        let len = buf.len();
        if len > 0xffff_ffffusize || self.count > 0xffff_ffffu32 - len as u32 {
            return Err(WriteError::TooLarge);
        }
        push_all(&mut self.inner, buf);
        self.count = self.count + len as u32;
        Ok(len)
    }
}

/// The four big-endian bytes of `n`.
pub fn be_bytes(n: u32) -> (r: [u8; 4])
    ensures
        r@ == be32(n as nat),
{
    let r: [u8; 4] = [((n / 0x100_0000) % 256) as u8, ((n / 0x1_0000) % 256) as u8, ((n / 256) % 256) as u8, (n % 256) as u8];
    assert(r@ =~= be32(n as nat));
    r
}

/// Appends every byte of `buf` to `v`.
pub fn push_all(v: &mut Vec<u8>, buf: &[u8])
    ensures
        final(v)@ == old(v)@ + buf@,
{
    let ghost start = v@;
    let len = buf.len();
    let mut i: usize = 0;
    while i < len
        invariant
            len == buf@.len(),
            i <= len,
            v@ == start + buf@.take(i as int),
        decreases len - i,
    {
        v.push(buf[i]);
        i += 1;
        assert(v@ =~= start + buf@.take(i as int));
    }
    assert(buf@.take(len as int) =~= buf@);
}

/// `n` zero bytes.
pub fn zero_bytes(n: usize) -> (r: Vec<u8>)
    ensures
        r@ == zeros(n as nat),
{
    let mut r: Vec<u8> = Vec::new();
    while r.len() < n
        invariant
            r@ == zeros(r@.len()),
            r@.len() <= n,
        decreases n - r@.len(),
    {
        r.push(0u8);
        assert(r@ =~= zeros(r@.len()));
    }
    r
}

/// The entry block grows with each record: one that stops before record `i` and then adds
/// that record is no longer than the whole.
pub proof fn lemma_entries_block_prefix(base: nat, records: Seq<Seq<u8>>, i: int)
    requires
        0 <= i < records.len(),
    ensures
        entries_block(base, records.take(i)).len() + records[i].len()
            <= entries_block(base, records).len(),
    decreases records.len(),
{
    assert(records.take(i + 1).drop_last() =~= records.take(i));
    assert(records.take(i + 1).last() == records[i]);
    if i + 1 < records.len() {
        lemma_entries_block_prefix(base, records.drop_last(), i);
        assert(records.drop_last().take(i) =~= records.take(i));
        assert(records.drop_last()[i] == records[i]);
    } else {
        assert(records.take(i + 1) =~= records);
    }
}

/// Written from a start that is a multiple of 8, the entry block ends on one.
pub proof fn lemma_entries_block_aligned(base: nat, records: Seq<Seq<u8>>)
    requires
        base % 8 == 0,
    ensures
        (base + entries_block(base, records).len()) % 8 == 0,
    decreases records.len(),
{
    if records.len() > 0 {
        lemma_entries_block_aligned(base, records.drop_last());
    }
}

/// Writes the header: magic, `version` and `num_entries`, and returns the count after it.
pub fn header(out: &mut CountBytes, version: Version, num_entries: u32) -> (r: Result<u32, WriteError>)
    ensures
        old(out).count + 12 <= max_size() <==> r.is_ok(),
        match r {
            Ok(c) => final(out).inner@ == old(out).inner@ + header_bytes(version.number(), num_entries as nat)
                && final(out).count == old(out).count + 12 && c == final(out).count,
            Err(e) => e == WriteError::TooLarge && *final(out) == *old(out),
        },
{
    if out.count > 0xffff_ffffu32 - 12 {
        return Err(WriteError::TooLarge);
    }
    let signature: [u8; 4] = [68u8, 73u8, 82u8, 67u8];
    assert(signature@ =~= magic());
    let number: u32 = match version {
        Version::V2 => 2,
        Version::V3 => 3,
        Version::V4 => 4,
    };
    let v = be_bytes(number);
    let n = be_bytes(num_entries);
    let _ = out.write(signature.as_slice());
    let _ = out.write(v.as_slice());
    let _ = out.write(n.as_slice());
    assert(out.inner@ =~= old(out).inner@ + header_bytes(version.number(), num_entries as nat));
    Ok(out.count)
}

/// Writes the record of each entry of `state`, in order, each followed by the zero bytes that
/// bring the count since `header_size` to a multiple of 8, and returns the count after them.
pub fn entries(out: &mut CountBytes, state: &State, header_size: u32) -> (r: Result<u32, WriteError>)
    requires
        header_size <= old(out).count,
    ensures
        ({
            let block = entries_block((old(out).count - header_size) as nat, records_of(state.entries@));
            &&& old(out).count + block.len() <= max_size() <==> r.is_ok()
            &&& match r {
                Ok(c) => final(out).inner@ == old(out).inner@ + block
                    && final(out).count == old(out).count + block.len() && c == final(out).count,
                Err(e) => e == WriteError::TooLarge
                    && final(out).inner@.len() >= old(out).inner@.len()
                    && final(out).inner@.subrange(0, old(out).inner@.len() as int) == old(out).inner@,
            }
        }),
{
    let ghost base = (out.count - header_size) as nat;
    let ghost recs = records_of(state.entries@);
    let n = state.entries.len();
    let mut i: usize = 0;
    while i < n
        invariant
            n == state.entries@.len(),
            recs == records_of(state.entries@),
            recs.len() == n,
            base == old(out).count - header_size,
            i <= n,
            out.inner@ == old(out).inner@ + entries_block(base, recs.take(i as int)),
            out.count == old(out).count + entries_block(base, recs.take(i as int)).len(),
        decreases n - i,
    {
        let ghost before = out.inner@;
        let ghost prev = entries_block(base, recs.take(i as int));
        let ghost next = recs.take(i as int + 1);
        assert(next.drop_last() =~= recs.take(i as int));
        assert(next.last() == state.entries@[i as int].record@);
        proof {
            lemma_entries_block_prefix(base, recs, i as int);
            if i + 1 < n {
                lemma_entries_block_prefix(base, recs, i as int + 1);
            } else {
                assert(next =~= recs);
            }
        }
        let record = state.entries[i].record.as_slice();
        match out.write(record) {
            Ok(_) => {},
            Err(e) => {
                assert(out.inner@.subrange(0, old(out).inner@.len() as int) =~= old(out).inner@);
                return Err(e);
            },
        }
        let rem = (out.count - header_size) % 8;
        if rem != 0 {
            let pad = zero_bytes((8 - rem) as usize);
            match out.write(pad.as_slice()) {
                Ok(_) => {},
                Err(e) => {
                    assert(out.inner@.subrange(0, old(out).inner@.len() as int) =~= old(out).inner@);
                    return Err(e);
                },
            }
        }
        i += 1;
        assert(out.inner@ =~= old(out).inner@ + entries_block(base, recs.take(i as int)));
    }
    assert(recs.take(n as int) =~= recs);
    Ok(out.count)
}

/// Writes the end-of-index-entry extension: where the extensions start, and a digest of the
/// table of contents `toc`.
pub fn end_of_index_entry(
    out: &mut CountBytes,
    hash_kind: HashKind,
    offset_to_extensions: u32,
    toc: &Vec<(Signature, u32)>,
) -> (r: Result<(), WriteError>)
    ensures
        end_of_index_entry_block(offset_to_extensions as nat, toc_view(toc@)).len() == 32,
        old(out).count + 32 <= max_size() <==> r.is_ok(),
        match r {
            Ok(_) => final(out).inner@ == old(out).inner@ + end_of_index_entry_block(
                offset_to_extensions as nat,
                toc_view(toc@),
            ) && final(out).count == old(out).count + 32,
            Err(e) => e == WriteError::TooLarge && *final(out) == *old(out),
        },
{
    let mut bytes: Vec<u8> = Vec::new();
    let mut i: usize = 0;
    while i < toc.len()
        invariant
            i <= toc@.len(),
            bytes@ == toc_bytes(toc_view(toc@).take(i as int)),
        decreases toc@.len() - i,
    {
        let ghost tv = toc_view(toc@).take(i as int + 1);
        assert(tv.drop_last() =~= toc_view(toc@).take(i as int));
        push_all(&mut bytes, toc[i].0.as_slice());
        push_all(&mut bytes, be_bytes(toc[i].1).as_slice());
        i += 1;
    }
    assert(toc_view(toc@).take(toc@.len() as int) =~= toc_view(toc@));
    let checksum = digest(hash_kind, bytes.as_slice());
    if out.count > 0xffff_ffffu32 - 32 {
        return Err(WriteError::TooLarge);
    }
    let size = 4 + hash_kind.len_in_bytes() as u32;
    let _ = out.write(end_of_index_entry_sig().as_slice());
    let _ = out.write(be_bytes(size).as_slice());
    let _ = out.write(be_bytes(offset_to_extensions).as_slice());
    let _ = out.write(checksum.as_slice());
    assert(out.inner@ =~= old(out).inner@ + end_of_index_entry_block(
        offset_to_extensions as nat,
        toc_view(toc@),
    ));
    Ok(())
}

/// What to write an index with.
#[derive(Clone, Copy)]
pub struct Options {
    /// The hash kind of the trailing checksum.
    pub hash_kind: HashKind,
    /// The version of the format to write; only version 2 is supported.
    pub version: Version,
    /// Which extensions to write.
    pub extensions: Extensions,
}

impl Default for Options {
    fn default() -> (r: Self)
        ensures
            r.version == Version::V2,
            r.extensions == Extensions::All,
    {
        Options { hash_kind: default_kind(), version: Version::V2, extensions: Extensions::All }
    }
}

/// Whether the cached-tree extension is written.
pub open spec fn tree_written(state: State, extensions: Extensions) -> bool {
    extensions.approves(tree_signature()) && state.tree is Some
}

/// The table of contents of the extensions that are written, in order.
pub open spec fn toc_of(state: State, extensions: Extensions) -> Seq<(Seq<u8>, u32)> {
    if tree_written(state, extensions) {
        seq![(tree_signature(), state.tree->Some_0@.len() as u32)]
    } else {
        Seq::empty()
    }
}

/// Whether the end-of-index-entry extension is written.
pub open spec fn end_of_index_entry_written(state: State, extensions: Extensions) -> bool {
    state.entries@.len() > 0 && extensions.approves(end_of_index_entry_signature())
        && toc_of(state, extensions).len() > 0
}

/// Header and entry block of the index of `state`.
pub open spec fn head_bytes(state: State) -> Seq<u8> {
    header_bytes(2, state.entries@.len()) + entries_block(0, records_of(state.entries@))
}

/// The extension blocks of the index of `state`, before the end-of-index-entry extension.
pub open spec fn extension_bytes(state: State, extensions: Extensions) -> Seq<u8> {
    if tree_written(state, extensions) {
        extension_block(tree_signature(), state.tree->Some_0@)
    } else {
        Seq::empty()
    }
}

/// The trailing end-of-index-entry extension of the index of `state`, if any.
pub open spec fn trailer_bytes(state: State, extensions: Extensions) -> Seq<u8> {
    if end_of_index_entry_written(state, extensions) {
        end_of_index_entry_block(head_bytes(state).len(), toc_of(state, extensions))
    } else {
        Seq::empty()
    }
}

/// The bytes of the version-2 index of `state` with the extensions that `extensions` approves.
pub open spec fn index_bytes(state: State, extensions: Extensions) -> Seq<u8> {
    head_bytes(state) + extension_bytes(state, extensions) + trailer_bytes(state, extensions)
}

/// Writes the extension blocks of `state` that `extensions` approves, and returns their table
/// of contents.
fn extension_blocks(write: &mut CountBytes, state: &State, extensions: Extensions) -> (r: Result<
    Vec<(Signature, u32)>,
    WriteError,
>)
    ensures
        old(write).count + extension_bytes(*state, extensions).len() <= max_size() <==> r.is_ok(),
        match r {
            Ok(toc) => final(write).inner@ == old(write).inner@ + extension_bytes(*state, extensions)
                && final(write).count == old(write).count + extension_bytes(*state, extensions).len()
                && toc_view(toc@) == toc_of(*state, extensions),
            Err(e) => e == WriteError::TooLarge,
        },
{
    let mut toc: Vec<(Signature, u32)> = Vec::new();
    match extensions.should_write(tree_sig()) {
        Some(signature) => match &state.tree {
            Some(tree) => {
                if tree.len() > 0xffff_ffffusize {
                    return Err(WriteError::TooLarge);
                }
                let size = tree.len() as u32;
                let before = write.count;
                match write.write(signature.as_slice()) {
                    Ok(_) => {},
                    Err(e) => return Err(e),
                }
                match write.write(be_bytes(size).as_slice()) {
                    Ok(_) => {},
                    Err(e) => return Err(e),
                }
                match write.write(tree.as_slice()) {
                    Ok(_) => {},
                    Err(e) => return Err(e),
                }
                let ext_size = write.count - before - 8;
                toc.push((signature, ext_size));
            },
            None => {},
        },
        None => {},
    }
    assert(write.inner@ =~= old(write).inner@ + extension_bytes(*state, extensions));
    assert(toc_view(toc@) =~= toc_of(*state, extensions));
    Ok(toc)
}

impl State {
    /// Serializes this state and appends it to `out`. Nothing is appended on an error.
    pub fn write_to(&self, out: &mut Vec<u8>, options: Options) -> (r: Result<(), WriteError>)
        ensures
            r.is_ok() <==> (options.version == Version::V2 && self.entries@.len() <= max_size()
                && index_bytes(*self, options.extensions).len() <= max_size()),
            r == Err::<(), WriteError>(WriteError::UnsupportedVersion) <==> options.version != Version::V2,
            r == Err::<(), WriteError>(WriteError::EntryCountOverflow) <==> (options.version == Version::V2
                && self.entries@.len() > max_size()),
            options.version == Version::V2 && self.entries@.len() <= max_size() ==> (
                r == Err::<(), WriteError>(WriteError::TooLarge)
                    <==> index_bytes(*self, options.extensions).len() > max_size()),
            r.is_ok() ==> final(out)@ == old(out)@ + index_bytes(*self, options.extensions),
            r.is_err() ==> final(out)@ == old(out)@,
    {
        if options.version != Version::V2 {
            return Err(WriteError::UnsupportedVersion);
        }
        if self.entries.len() > 0xffff_ffffusize {
            return Err(WriteError::EntryCountOverflow);
        }
        let num_entries = self.entries.len() as u32;
        let ghost image = index_bytes(*self, options.extensions);
        let ghost head = head_bytes(*self);
        let ghost exts = extension_bytes(*self, options.extensions);
        let mut write = CountBytes::new(Vec::new());
        let ghost trailer = trailer_bytes(*self, options.extensions);
        assert(image == head + exts + trailer);
        let offset_to_entries = match header(&mut write, options.version, num_entries) {
            Ok(c) => c,
            Err(e) => return Err(e),
        };
        assert(write.count == write.inner@.len());
        let offset_to_extensions = match entries(&mut write, self, offset_to_entries) {
            Ok(c) => c,
            Err(e) => {
                assert(image.len() >= head.len());
                return Err(e);
            },
        };
        assert(write.inner@ =~= head);
        assert(write.count == head.len());
        let toc = match extension_blocks(&mut write, self, options.extensions) {
            Ok(t) => t,
            Err(e) => {
                assert(image.len() >= head.len() + exts.len());
                return Err(e);
            },
        };
        assert(write.count == write.inner@.len());
        if num_entries > 0 && options.extensions.should_write(end_of_index_entry_sig()).is_some()
            && toc.len() > 0 {
            assert(end_of_index_entry_written(*self, options.extensions));
            match end_of_index_entry(&mut write, options.hash_kind, offset_to_extensions, &toc) {
                Ok(_) => {},
                Err(e) => return Err(e),
            }
        } else {
            assert(!end_of_index_entry_written(*self, options.extensions));
        }
        assert(write.inner@ =~= image);
        assert(write.count == image.len());
        push_all(out, write.inner.as_slice());
        Ok(())
    }
}

/// In the index of any state, the entry-count field holds the number of entries, and the entry
/// block that follows the header, measured from the header's end, is a multiple of 8 bytes long.
pub proof fn lemma_count_and_alignment(state: State, extensions: Extensions)
    ensures
        index_bytes(state, extensions).subrange(8, 12) == be32(state.entries@.len()),
        index_bytes(state, extensions).subrange(12, 12 + entries_block(0, records_of(state.entries@)).len() as int)
            == entries_block(0, records_of(state.entries@)),
        entries_block(0, records_of(state.entries@)).len() % 8 == 0,
{
    let block = entries_block(0, records_of(state.entries@));
    let image = index_bytes(state, extensions);
    lemma_entries_block_aligned(0, records_of(state.entries@));
    assert(image.subrange(8, 12) =~= be32(state.entries@.len()));
    assert(image.subrange(12, 12 + block.len() as int) =~= block);
}

/// The index of a state without entries never ends in an end-of-index-entry extension,
/// whatever the extension policy.
pub proof fn lemma_no_entries_no_trailer(state: State, extensions: Extensions)
    requires
        state.entries@.len() == 0,
    ensures
        index_bytes(state, extensions) == header_bytes(2, 0) + extension_bytes(state, extensions),
{
    assert(records_of(state.entries@).len() == 0);
    assert(index_bytes(state, extensions) =~= header_bytes(2, 0) + extension_bytes(state, extensions));
}

/// With the policy that writes nothing, the index holds the header and the entries alone, even
/// where the state carries extension payloads.
pub proof fn lemma_policy_nothing_writes_no_extension(state: State)
    ensures
        index_bytes(state, Extensions::Nothing) == head_bytes(state),
{
    assert(index_bytes(state, Extensions::Nothing) =~= head_bytes(state));
}

/// With the policy that writes everything, a state with entries and a cached tree gets the tree
/// extension, then the end-of-index-entry extension that lists it.
pub proof fn lemma_policy_all_writes_every_extension(state: State)
    requires
        state.entries@.len() > 0,
        state.tree is Some,
    ensures
        index_bytes(state, Extensions::All) == head_bytes(state)
            + extension_block(tree_signature(), state.tree->Some_0@)
            + end_of_index_entry_block(
                head_bytes(state).len(),
                seq![(tree_signature(), state.tree->Some_0@.len() as u32)],
            ),
{
}

} // verus!
