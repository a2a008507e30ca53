//! The blob store: where a blob lies, which bytes stand for a content, and
//! which blobs a collection removes.

use vstd::prelude::*;
use vstd::utf8::{decode_utf8, encode_utf8, encode_utf8_decode_utf8, encode_utf8_valid_utf8, valid_utf8};
use crate::paths::{get_store_dir, join, join_path, store_dir};
use crate::text::{chars_of, text_of, texts};

verus! {

/// Permission bits of a blob in the store: nobody writes to it.
pub const BLOB_MODE: u32 = 0o444;

/// Permission bits that a blob is given before it is removed.
pub const REMOVABLE_MODE: u32 = 0o644;

/// What a staged blob's name ends in before it is renamed into place.
pub const STAGING_EXTENSION: &'static str = "tmp";

/// Level that stands for "compress" where none is named.
pub const DEFAULT_ZSTD_LEVEL: i32 = 3;

/// Highest level that the compressor knows.
pub const MAX_ZSTD_LEVEL: u32 = 22;

/// The four bytes `KBCP` that open a compressed blob.
pub open spec fn magic() -> Seq<u8> {
    seq![0x4Bu8, 0x42u8, 0x43u8, 0x50u8]
}

/// The frame that the compressor makes of a content at a level, where it
/// makes one.
pub uninterp spec fn zstd_frame(content: Seq<u8>, level: int) -> Option<Seq<u8>>;

/// The content that the decompressor reads out of a frame, where it reads
/// one.
pub uninterp spec fn zstd_content(frame: Seq<u8>) -> Option<Seq<u8>>;

/// `zstd::stream::encode_all` on a slice. The frame that comes back is the
/// one that `zstd_frame` names, and it holds the content: Zstandard is a
/// lossless format. A failure of the compressor gives `None`.
#[verifier::external_body]
pub(crate) fn zstd_encode(content: &[u8], level: i32) -> (out: Option<Vec<u8>>)
    ensures
        match out {
            Some(frame) => zstd_frame(content@, level as int) == Some(frame@) && zstd_content(
                frame@,
            ) == Some(content@),
            None => zstd_frame(content@, level as int) is None,
        },
{
    zstd::stream::encode_all(content, level).ok()
}

/// `zstd::stream::decode_all` on a slice: the content that `zstd_content`
/// names, `None` where the bytes are no frame.
#[verifier::external_body]
pub(crate) fn zstd_decode(frame: &[u8]) -> (out: Option<Vec<u8>>)
    ensures
        match out {
            Some(content) => zstd_content(frame@) == Some(content@),
            None => zstd_content(frame@) is None,
        },
{
    zstd::stream::decode_all(frame).ok()
}

/// `String::from_utf8`: the text that the bytes encode, `None` where they
/// are not UTF-8.
#[verifier::external_body]
pub(crate) fn utf8_text(bytes: Vec<u8>) -> (out: Option<String>)
    ensures
        out is Some <==> valid_utf8(bytes@),
        out matches Some(s) ==> s@ == decode_utf8(bytes@),
{
    String::from_utf8(bytes).ok()
}

/// The level handed to the compressor for a configured level: capped at the
/// highest that it knows, and the default for 0.
pub open spec fn spec_zstd_level(level: u32) -> i32 {
    if level > MAX_ZSTD_LEVEL {
        22
    } else if level == 0 {
        DEFAULT_ZSTD_LEVEL
    } else {
        level as i32
    }
}

/// The level that is handed to the compressor for a configured level.
pub fn zstd_level(level: u32) -> (out: i32)
    ensures
        out == spec_zstd_level(level),
        1 <= out <= 22,
{
    if level > MAX_ZSTD_LEVEL {
        22
    } else if level == 0 {
        DEFAULT_ZSTD_LEVEL
    } else {
        level as i32
    }
}

/// A blob is compressed when it opens with the magic bytes.
pub open spec fn is_compressed(blob: Seq<u8>) -> bool {
    blob.len() >= 4 && blob.subrange(0, 4) == magic()
}

/// The bytes that are written for a content at a configured level: the
/// content itself at level 0, else the magic bytes and the frame.
pub open spec fn stored_form(content: Seq<u8>, level: u32) -> Option<Seq<u8>> {
    if level == 0 {
        Some(content)
    } else {
        match zstd_frame(content, spec_zstd_level(level) as int) {
            Some(frame) => Some(magic() + frame),
            None => None,
        }
    }
}

/// Why a blob could not be read.
#[derive(Debug, Clone, Copy, PartialEq, Eq)]
pub enum BlobError {
    /// The blob does not open with the magic bytes.
    NotCompressed,
    /// What follows the magic bytes is no frame.
    Corrupt,
}

impl BlobError {
    /// What went wrong, in words.
    pub fn message(&self) -> (out: String)
        ensures
            out@ == self.words(),
    {
        match self {
            BlobError::NotCompressed => NOT_COMPRESSED.to_string(),
            BlobError::Corrupt => CORRUPT_BLOB.to_string(),
        }
    }

    /// The words for each failure.
    pub open spec fn words(&self) -> Seq<char> {
        match self {
            BlobError::NotCompressed => NOT_COMPRESSED@,
            BlobError::Corrupt => CORRUPT_BLOB@,
        }
    }
}

/// What is said of a blob that does not open with the magic bytes.
pub const NOT_COMPRESSED: &'static str = "Blob is not compressed (missing magic bytes)";

/// What is said of a blob whose frame cannot be read.
pub const CORRUPT_BLOB: &'static str = "Blob is corrupt: its compressed stream cannot be read";

/// What reading a compressed blob gives.
pub open spec fn decompressed(blob: Seq<u8>) -> Result<Seq<u8>, BlobError> {
    if !is_compressed(blob) {
        Err(BlobError::NotCompressed)
    } else {
        match zstd_content(blob.subrange(4, blob.len() as int)) {
            Some(content) => Ok(content),
            None => Err(BlobError::Corrupt),
        }
    }
}

/// The content that a blob stands for: what its frame holds where it is
/// compressed, its own bytes where it is not.
pub open spec fn blob_content(blob: Seq<u8>) -> Result<Seq<u8>, BlobError> {
    if is_compressed(blob) {
        decompressed(blob)
    } else {
        Ok(blob)
    }
}

fn copy_range(bytes: &[u8], from: usize, to: usize) -> (out: Vec<u8>)
    requires
        from <= to <= bytes@.len(),
    ensures
        out@ == bytes@.subrange(from as int, to as int),
{
    let mut out: Vec<u8> = Vec::new();
    let mut i: usize = from;
    while i < to
        invariant
            from <= i <= to <= bytes@.len(),
            out@ == bytes@.subrange(from as int, i as int),
        decreases to - i,
    {
        out.push(bytes[i]);
        i = i + 1;
        assert(out@ =~= bytes@.subrange(from as int, i as int));
    }
    out
}

fn copy_all(bytes: &[u8]) -> (out: Vec<u8>)
    ensures
        out@ == bytes@,
{
    let out = copy_range(bytes, 0, bytes.len());
    assert(bytes@.subrange(0, bytes@.len() as int) =~= bytes@);
    out
}

fn opens_with_magic(blob: &[u8]) -> (yes: bool)
    ensures
        yes == is_compressed(blob@),
{
    if blob.len() < 4 {
        return false;
    }
    let yes = blob[0] == 0x4B && blob[1] == 0x42 && blob[2] == 0x43 && blob[3] == 0x50;
    proof {
        let head = blob@.subrange(0, 4);
        if yes {
            assert(head =~= magic());
        } else {
            assert(head[0] == blob@[0] && head[1] == blob@[1] && head[2] == blob@[2] && head[3]
                == blob@[3]);
            assert(magic()[0] == 0x4B && magic()[1] == 0x42 && magic()[2] == 0x43 && magic()[3]
                == 0x50);
        }
    }
    yes
}

/// Reads the content out of a compressed blob.
pub fn decompress_blob(blob: &[u8]) -> (out: Result<Vec<u8>, BlobError>)
    ensures
        match out {
            Ok(content) => decompressed(blob@) == Ok::<Seq<u8>, BlobError>(content@),
            Err(e) => decompressed(blob@) == Err::<Seq<u8>, BlobError>(e),
        },
{
    if !opens_with_magic(blob) {
        return Err(BlobError::NotCompressed);
    }
    let frame = copy_range(blob, 4, blob.len());
    match zstd_decode(frame.as_slice()) {
        Some(content) => Ok(content),
        None => Err(BlobError::Corrupt),
    }
}

/// Reads the content that a blob stands for, compressed or not.
pub fn decode_blob(blob: &[u8]) -> (out: Result<Vec<u8>, BlobError>)
    ensures
        match out {
            Ok(content) => blob_content(blob@) == Ok::<Seq<u8>, BlobError>(content@),
            Err(e) => blob_content(blob@) == Err::<Seq<u8>, BlobError>(e),
        },
{
    if opens_with_magic(blob) {
        decompress_blob(blob)
    } else {
        Ok(copy_all(blob))
    }
}

/// The bytes of a symbolic link's blob: the target's text in UTF-8.
pub fn symlink_blob(target: &str) -> (out: Vec<u8>)
    ensures
        out@ == encode_utf8(target@),
        symlink_target_of(out@) == Some(target@),
{
    proof {
        encode_utf8_valid_utf8(target@);
        encode_utf8_decode_utf8(target@);
    }
    let bytes = target.as_bytes();
    copy_all(bytes)
}

/// The target that a symbolic link's blob holds, where it holds text.
pub open spec fn symlink_target_of(blob: Seq<u8>) -> Option<Seq<char>> {
    if valid_utf8(blob) {
        Some(decode_utf8(blob))
    } else {
        None
    }
}


/// The content-addressed store of a repository.
#[derive(Debug)]
pub struct Store {
    /// The directory that holds the blobs.
    pub store_dir: String,
    /// 0 writes contents as they are; 1 and above compress.
    pub compression_level: u32,
}

/// The first two characters of a hash name the directory of its blob.
pub open spec fn prefix_len(hash: Seq<char>) -> int {
    if hash.len() < 2 {
        hash.len() as int
    } else {
        2
    }
}

/// Where the blob of a hash lies below the store's directory.
pub open spec fn blob_path_of(dir: Seq<char>, hash: Seq<char>) -> Seq<char> {
    join_path(
        join_path(dir, hash.subrange(0, prefix_len(hash))),
        hash.subrange(prefix_len(hash), hash.len() as int),
    )
}

impl Store {
    /// A store that writes contents as they are.
    pub fn new(repo_root: &str) -> (out: Self)
        ensures
            out.store_dir@ == store_dir(repo_root@),
            out.compression_level == 0,
    {
        Store { store_dir: get_store_dir(repo_root), compression_level: 0 }
    }

    /// A store that compresses at the level, or writes contents as they are at
    /// level 0.
    pub fn with_compression(repo_root: &str, compression_level: u32) -> (out: Self)
        ensures
            out.store_dir@ == store_dir(repo_root@),
            out.compression_level == compression_level,
    {
        Store { store_dir: get_store_dir(repo_root), compression_level }
    }

    /// Where the blob of `hash` lies: two levels below the store's
    /// directory, the first named by the first two characters of the hash.
    pub fn blob_path(&self, hash: &str) -> (out: String)
        ensures
            out@ == blob_path_of(self.store_dir@, hash@),
    {
        let chars = chars_of(hash);
        let cut: usize = if chars.len() < 2 {
            chars.len()
        } else {
            2
        };
        let mut prefix: Vec<char> = Vec::new();
        let mut rest: Vec<char> = Vec::new();
        let mut i: usize = 0;
        while i < chars.len()
            invariant
                i <= chars.len(),
                cut <= chars.len(),
                prefix@ == chars@.subrange(0, if i < cut { i as int } else { cut as int }),
                rest@ == chars@.subrange(cut as int, if i < cut { cut as int } else { i as int }),
            decreases chars.len() - i,
        {
            if i < cut {
                prefix.push(chars[i]);
                assert(prefix@ =~= chars@.subrange(0, i + 1));
                assert(rest@ =~= chars@.subrange(cut as int, cut as int));
            } else {
                rest.push(chars[i]);
                assert(rest@ =~= chars@.subrange(cut as int, i + 1));
            }
            i = i + 1;
        }
        let p = text_of(&prefix);
        let r = text_of(&rest);
        let dir = join(self.store_dir.as_str(), p.as_str());
        join(dir.as_str(), r.as_str())
    }

    /// The bytes to write for a content under the store's level, `None`
    /// where the compressor fails. A blob that was written this way reads
    /// back as the content, unless the content was written as it is and
    /// itself opens with the magic bytes.
    pub fn encode_blob(&self, content: &[u8]) -> (out: Option<Vec<u8>>)
        ensures
            match out {
                Some(blob) => stored_form(content@, self.compression_level) == Some(blob@),
                None => stored_form(content@, self.compression_level) is None,
            },
            self.compression_level == 0 ==> out is Some,
            out matches Some(blob) ==> (self.compression_level > 0 || !is_compressed(content@))
                ==> blob_content(blob@) == Ok::<Seq<u8>, BlobError>(content@),
    {
        if self.compression_level == 0 {
            return Some(copy_all(content));
        }
        match zstd_encode(content, zstd_level(self.compression_level)) {
            Some(frame) => {
                let mut blob: Vec<u8> = Vec::new();
                blob.push(0x4B);
                blob.push(0x42);
                blob.push(0x43);
                blob.push(0x50);
                assert(blob@ =~= magic());
                let mut i: usize = 0;
                while i < frame.len()
                    invariant
                        i <= frame.len(),
                        blob@ == magic() + frame@.subrange(0, i as int),
                    decreases frame.len() - i,
                {
                    blob.push(frame[i]);
                    i = i + 1;
                    assert(blob@ =~= magic() + frame@.subrange(0, i as int));
                }
                assert(frame@.subrange(0, frame.len() as int) =~= frame@);
                assert(blob@.subrange(0, 4) =~= magic());
                assert(blob@.subrange(4, blob@.len() as int) =~= frame@);
                Some(blob)
            },
            None => None,
        }
    }
}

/// What the store does for one content.
#[derive(Debug)]
pub enum StoreStep {
    /// The blob is there: nothing is written.
    Present,
    /// These bytes are written under the hash.
    Write(Vec<u8>),
    /// The compressor failed: nothing is written.
    Failed,
}

impl StoreStep {
    /// Whether the step puts a new blob into the store.
    pub open spec fn inserts(&self) -> bool {
        self is Write
    }

    /// Whether the step puts a new blob into the store.
    pub fn inserted(&self) -> (yes: bool)
        ensures
            yes == self.inserts(),
    {
        match self {
            StoreStep::Write(_) => true,
            _ => false,
        }
    }
}

/// The blobs of a store: the bytes that lie under each hash.
pub type Held = Map<Seq<char>, Seq<u8>>;

/// The store after a step for `hash`.
pub open spec fn held_after(held: Held, hash: Seq<char>, step: StoreStep) -> Held {
    match step {
        StoreStep::Write(blob) => held.insert(hash, blob@),
        _ => held,
    }
}

/// The step for a content under a level, in a store that holds `held`.
pub open spec fn step_for(held: Held, hash: Seq<char>, blob: Option<Seq<u8>>, step: StoreStep) -> bool {
    if held.dom().contains(hash) {
        step is Present
    } else {
        match blob {
            Some(bytes) => (step matches StoreStep::Write(b) && b@ == bytes),
            None => step is Failed,
        }
    }
}

impl Store {
    /// The step for a file's content: none where the blob is there, else
    /// the writing of its stored form.
    pub fn store_file(&self, present: bool, content: &[u8]) -> (out: StoreStep)
        ensures
            present ==> out is Present,
            !present ==> match stored_form(content@, self.compression_level) {
                Some(bytes) => (out matches StoreStep::Write(b) && b@ == bytes),
                None => out is Failed,
            },
            out.inserts() ==> !present,
            out matches StoreStep::Write(b) ==> (self.compression_level > 0 || !is_compressed(content@)) ==> blob_content(b@) == Ok::<Seq<u8>, BlobError>(content@),
    {
        if present {
            return StoreStep::Present;
        }
        match self.encode_blob(content) {
            Some(blob) => StoreStep::Write(blob),
            None => StoreStep::Failed,
        }
    }

    /// The step for a symbolic link: none where the blob is there, else the
    /// writing of the target's text, which is never compressed.
    pub fn store_symlink(&self, present: bool, target: &str) -> (out: StoreStep)
        ensures
            present ==> out is Present,
            !present ==> (out matches StoreStep::Write(b) && b@ == encode_utf8(target@)
                && symlink_target_of(b@) == Some(target@)),
            out.inserts() <==> !present,
    {
        if present {
            StoreStep::Present
        } else {
            StoreStep::Write(symlink_blob(target))
        }
    }
}

/// Inserting is idempotent: a first step for an absent hash writes, a second
/// step for the same hash finds the blob, writes nothing and leaves every
/// blob of the store as it was.
pub proof fn law_insert_idempotent(
    held: Held,
    hash: Seq<char>,
    first_blob: Option<Seq<u8>>,
    first: StoreStep,
    second_blob: Option<Seq<u8>>,
    second: StoreStep,
)
    requires
        step_for(held, hash, first_blob, first),
        first_blob is Some,
        step_for(held_after(held, hash, first), hash, second_blob, second),
    ensures
        first.inserts() <==> !held.dom().contains(hash),
        !second.inserts(),
        held_after(held_after(held, hash, first), hash, second) == held_after(held, hash, first),
{
}

/// One blob as a listing of the store shows it: the name of its directory,
/// its own name, and its size on disk.
#[derive(Debug)]
pub struct BlobFile {
    pub prefix: String,
    pub name: String,
    pub size: u64,
}

impl BlobFile {
    /// The hash under which the blob lies: the two names, one after the
    /// other.
    pub open spec fn hash(&self) -> Seq<char> {
        self.prefix@ + self.name@
    }

    /// The hash under which the blob lies.
    pub fn hash_text(&self) -> (out: String)
        ensures
            out@ == self.hash(),
    {
        let mut chars = chars_of(self.prefix.as_str());
        let name = chars_of(self.name.as_str());
        crate::text::push_all(&mut chars, &name);
        text_of(&chars)
    }
}

/// A blob is garbage when no live hash is its own.
pub open spec fn is_garbage(blob: BlobFile, live: Seq<Seq<char>>) -> bool {
    !live.contains(blob.hash())
}

/// The places, in order, of the blobs of a listing that are garbage.
pub open spec fn garbage(blobs: Seq<BlobFile>, live: Seq<Seq<char>>) -> Seq<int>
    decreases blobs.len(),
{
    if blobs.len() == 0 {
        Seq::empty()
    } else {
        let before = garbage(blobs.drop_last(), live);
        if is_garbage(blobs.last(), live) {
            before.push(blobs.len() - 1)
        } else {
            before
        }
    }
}

/// Places in a listing as numbers.
pub open spec fn places(at: Seq<usize>) -> Seq<int> {
    Seq::new(at.len(), |i: int| at[i] as int)
}

/// The sizes of the blobs of a listing that are garbage, added up.
pub open spec fn garbage_bytes(blobs: Seq<BlobFile>, live: Seq<Seq<char>>) -> nat
    decreases blobs.len(),
{
    if blobs.len() == 0 {
        0
    } else {
        garbage_bytes(blobs.drop_last(), live) + if is_garbage(blobs.last(), live) {
            blobs.last().size as nat
        } else {
            0
        }
    }
}

/// The sizes of the blobs of a listing, added up.
pub open spec fn listed_bytes(blobs: Seq<BlobFile>) -> nat
    decreases blobs.len(),
{
    if blobs.len() == 0 {
        0
    } else {
        listed_bytes(blobs.drop_last()) + blobs.last().size as nat
    }
}

/// What a collection removes.
#[derive(Debug)]
pub struct GcPlan {
    /// The places in the listing of the blobs to remove, in order.
    pub remove: Vec<usize>,
    pub removed_count: usize,
    pub freed_bytes: u64,
}

/// The places that `garbage` gives are those of the garbage, each once and
/// in order.
pub proof fn garbage_places(blobs: Seq<BlobFile>, live: Seq<Seq<char>>)
    ensures
        garbage(blobs, live).len() <= blobs.len(),
        forall|k: int|
            0 <= k < garbage(blobs, live).len() ==> 0 <= (#[trigger] garbage(blobs, live)[k])
                < blobs.len() && is_garbage(blobs[garbage(blobs, live)[k]], live),
        forall|i: int|
            0 <= i < blobs.len() && is_garbage(#[trigger] blobs[i], live) ==> garbage(
                blobs,
                live,
            ).contains(i),
        forall|j: int, k: int|
            0 <= j < k < garbage(blobs, live).len() ==> garbage(blobs, live)[j] < garbage(
                blobs,
                live,
            )[k],
    decreases blobs.len(),
{
    if blobs.len() > 0 {
        let front = blobs.drop_last();
        garbage_places(front, live);
        let before = garbage(front, live);
        let all = garbage(blobs, live);
        assert forall|i: int| 0 <= i < blobs.len() && is_garbage(#[trigger] blobs[i], live) implies all.contains(
            i,
        ) by {
            if i < front.len() {
                assert(front[i] == blobs[i]);
                let k = choose|k: int| 0 <= k < before.len() && before[k] == i;
                assert(all[k] == i);
            } else {
                assert(all[all.len() - 1] == i);
            }
        }
        assert forall|k: int| 0 <= k < all.len() implies 0 <= (#[trigger] all[k]) < blobs.len()
            && is_garbage(blobs[all[k]], live) by {
            if k < before.len() {
                assert(all[k] == before[k]);
                assert(front[before[k]] == blobs[before[k]]);
            }
        }
        assert forall|j: int, k: int| 0 <= j < k < all.len() implies all[j] < all[k] by {
            if k < before.len() {
                assert(all[j] == before[j] && all[k] == before[k]);
            } else {
                assert(all[j] == before[j]);
                assert(before[j] < front.len());
            }
        }
    }
}

fn plan_collection(blobs: &Vec<BlobFile>, referenced: &Vec<String>) -> (out: Option<GcPlan>)
    ensures
        out is Some <==> garbage_bytes(blobs@, texts(referenced@)) <= u64::MAX,
        out matches Some(plan) ==> {
            &&& places(plan.remove@) == garbage(blobs@, texts(referenced@))
            &&& plan.removed_count == plan.remove@.len()
            &&& plan.freed_bytes == garbage_bytes(blobs@, texts(referenced@))
        },
{
    let ghost live = texts(referenced@);
    let held = crate::select::text_set(referenced);
    let mut remove: Vec<usize> = Vec::new();
    let mut freed: u64 = 0;
    let mut i: usize = 0;
    while i < blobs.len()
        invariant
            i <= blobs.len(),
            live == texts(referenced@),
            held.wf(),
            forall|x: Seq<char>| held.has(x) <==> live.contains(x),
            places(remove@) == garbage(blobs@.subrange(0, i as int), live),
            freed == garbage_bytes(blobs@.subrange(0, i as int), live),
            remove@.len() <= i,
        decreases blobs.len() - i,
    {
        assert(blobs@.subrange(0, i + 1).drop_last() =~= blobs@.subrange(0, i as int));
        let hash = blobs[i].hash_text();
        if !held.contains_key(hash.as_str()) {
            if blobs[i].size > u64::MAX - freed {
                proof {
                    garbage_bytes_grows(blobs@, live, i + 1);
                }
                return None;
            }
            freed = freed + blobs[i].size;
            let ghost before = places(remove@);
            remove.push(i);
            assert(places(remove@) =~= before.push(i as int));
        }
        i = i + 1;
    }
    assert(blobs@.subrange(0, blobs.len() as int) =~= blobs@);
    let removed_count: usize = remove.len();
    Some(GcPlan { remove, removed_count, freed_bytes: freed })
}

/// The garbage of a part of a listing weighs no more than that of the whole.
pub proof fn garbage_bytes_grows(blobs: Seq<BlobFile>, live: Seq<Seq<char>>, n: int)
    requires
        0 <= n <= blobs.len(),
    ensures
        garbage_bytes(blobs.subrange(0, n), live) <= garbage_bytes(blobs, live),
    decreases blobs.len() - n,
{
    if n < blobs.len() {
        garbage_bytes_grows(blobs, live, n + 1);
        assert(blobs.subrange(0, n + 1).drop_last() =~= blobs.subrange(0, n));
    } else {
        assert(blobs.subrange(0, n) =~= blobs);
    }
}

/// After a collection every blob that is left has a live hash, and every
/// blob with a live hash is left.
pub proof fn law_gc_keeps_the_live(blobs: Seq<BlobFile>, live: Seq<Seq<char>>, i: int)
    requires
        0 <= i < blobs.len(),
    ensures
        !garbage(blobs, live).contains(i) <==> live.contains(blobs[i].hash()),
{
    garbage_places(blobs, live);
    if garbage(blobs, live).contains(i) {
        let k = choose|k: int| 0 <= k < garbage(blobs, live).len() && garbage(blobs, live)[k] == i;
        assert(is_garbage(blobs[garbage(blobs, live)[k]], live));
    }
}

fn sum_listing(blobs: &Vec<BlobFile>) -> (out: Option<u64>)
    ensures
        match out {
            Some(total) => total == listed_bytes(blobs@),
            None => listed_bytes(blobs@) > u64::MAX,
        },
{
    let mut total: u64 = 0;
    let mut i: usize = 0;
    while i < blobs.len()
        invariant
            i <= blobs.len(),
            total == listed_bytes(blobs@.subrange(0, i as int)),
        decreases blobs.len() - i,
    {
        assert(blobs@.subrange(0, i + 1).drop_last() =~= blobs@.subrange(0, i as int));
        if blobs[i].size > u64::MAX - total {
            proof {
                listed_bytes_grows(blobs@, i + 1);
            }
            return None;
        }
        total = total + blobs[i].size;
        i = i + 1;
    }
    assert(blobs@.subrange(0, blobs.len() as int) =~= blobs@);
    Some(total)
}

/// A part of a listing weighs no more than the whole.
pub proof fn listed_bytes_grows(blobs: Seq<BlobFile>, n: int)
    requires
        0 <= n <= blobs.len(),
    ensures
        listed_bytes(blobs.subrange(0, n)) <= listed_bytes(blobs),
    decreases blobs.len() - n,
{
    if n < blobs.len() {
        listed_bytes_grows(blobs, n + 1);
        assert(blobs.subrange(0, n + 1).drop_last() =~= blobs.subrange(0, n));
    } else {
        assert(blobs.subrange(0, n) =~= blobs);
    }
}

impl Store {
    /// Whether a blob, or the first bytes of one, opens with the magic
    /// bytes.
    pub fn is_blob_compressed(&self, blob: &[u8]) -> (yes: bool)
        ensures
            yes == is_compressed(blob@),
    {
        opens_with_magic(blob)
    }

    /// Reads the target out of a symbolic link's blob.
    pub fn retrieve_symlink_target(&self, blob: &[u8]) -> (out: Option<String>)
        ensures
            match out {
                Some(target) => symlink_target_of(blob@) == Some(target@),
                None => symlink_target_of(blob@) is None,
            },
    {
        utf8_text(copy_all(blob))
    }

    /// The size of the whole store from a listing of it, `None` where it
    /// does not fit in 64 bits.
    pub fn total_size(&self, blobs: &Vec<BlobFile>) -> (out: Option<u64>)
        ensures
            match out {
                Some(total) => total == listed_bytes(blobs@),
                None => listed_bytes(blobs@) > u64::MAX,
            },
    {
        sum_listing(blobs)
    }

    /// The number of blobs in a listing of the store.
    pub fn blob_count(&self, blobs: &Vec<BlobFile>) -> (out: usize)
        ensures
            out == blobs@.len(),
    {
        blobs.len()
    }

    /// Decides what a collection removes from a listing of the store:
    /// every blob whose hash is none of `referenced`, and no other. `None`
    /// where the sizes of the garbage do not add up in 64 bits.
    pub fn garbage_collect(&self, blobs: &Vec<BlobFile>, referenced: &Vec<String>) -> (out: Option<
        GcPlan,
    >)
        ensures
            out is Some <==> garbage_bytes(blobs@, texts(referenced@)) <= u64::MAX,
            out matches Some(plan) ==> {
                &&& places(plan.remove@) == garbage(blobs@, texts(referenced@))
                &&& plan.removed_count == plan.remove@.len()
                &&& plan.freed_bytes == garbage_bytes(blobs@, texts(referenced@))
            },
    {
        plan_collection(blobs, referenced)
    }
}

} // verus!
