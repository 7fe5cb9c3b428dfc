//! Content-addressed count entries and the conservative path metadata index.
//!
//! The persistent store itself (files, locks, atomic publication) lives with
//! the caller; this module decides what keys and entries mean and when an
//! entry may be trusted.

use vstd::prelude::*;
use vstd::bytes::{spec_u32_to_le_bytes, spec_u64_to_le_bytes, u32_to_le_bytes, u64_to_le_bytes};
use vstd::utf8::encode_utf8;

use crate::COUNTING_SEMANTICS_VERSION;
use crate::chars::{chars_of, concat, concat3, str_eq, string_of};
use crate::count::CountOptions;
use crate::file::InvalidUtf8Policy;
use crate::hash::{blake3_hex, blake3_hex_of, is_lower_hex_digit};

verus! {

/// Where, if anywhere, the persistent cache lives.
#[derive(Debug, PartialEq, Eq)]
pub enum CachePolicy {
    /// The per-user cache directory of the platform.
    Default,
    /// No persistent cache.
    Disabled,
    /// An explicit cache directory.
    Directory(String),
}

impl Clone for CachePolicy {
    fn clone(&self) -> (r: Self)
        ensures
            r == *self,
    {
        match self {
            CachePolicy::Default => CachePolicy::Default,
            CachePolicy::Disabled => CachePolicy::Disabled,
            CachePolicy::Directory(p) => CachePolicy::Directory(p.clone()),
        }
    }
}

/// Size and modification time observed for one path.
#[derive(Clone, Copy, Debug, PartialEq, Eq, Structural)]
pub struct MetadataSnapshot {
    /// File size in bytes.
    pub size: u64,
    /// Modification time in nanoseconds since the Unix epoch, when known.
    pub modified_nanos: Option<u64>,
}

/// A token count remembered for some content under fixed counting semantics.
#[derive(Clone, Copy, Debug, PartialEq, Eq, Structural)]
pub struct CachedCount {
    /// Token count.
    pub tokens: u64,
    /// Whether the content was decoded lossily.
    pub decoded_lossily: bool,
}


/// Revision of the on-disk entry format.
pub const CACHE_FORMAT_VERSION: u32 = 1;

/// Largest cache entry file that is read back.
pub const MAX_CACHE_ENTRY_BYTES: u64 = 65536;

/// Modification times this close to the moment an index entry was recorded
/// may hide a later write, so such entries are never trusted.
pub const RACY_MTIME_WINDOW_NANOS: u64 = 2_000_000_000;

/// One length-prefixed component: its length as eight little-endian bytes, then its bytes.
pub open spec fn frame(part: Seq<u8>) -> Seq<u8> {
    spec_u64_to_le_bytes(part.len() as u64) + part
}

/// The unambiguous concatenation of components that is hashed into keys and integrity tags.
pub open spec fn framed(parts: Seq<Seq<u8>>) -> Seq<u8>
    decreases parts.len(),
{
    if parts.len() == 0 {
        Seq::empty()
    } else {
        frame(parts[0]) + framed(parts.drop_first())
    }
}

/// The UTF-8 bytes of a string literal.
pub open spec fn tag(s: &str) -> Seq<u8> {
    encode_utf8(s@)
}

/// The content-addressed key of a count: the content hash together with every
/// setting that changes a count.
pub open spec fn spec_count_key(content_hash: Seq<char>, options: CountOptions, invalid_utf8: InvalidUtf8Policy) -> Seq<char> {
    blake3_hex(
        framed(
            seq![
                encode_utf8("tokm-count-key-v1"@),
                encode_utf8(content_hash),
                encode_utf8(options.spec_metadata().fingerprint@),
                encode_utf8(options.spec_text_policy().spec_fingerprint()),
                encode_utf8(invalid_utf8.spec_fingerprint()),
                spec_u32_to_le_bytes(COUNTING_SEMANTICS_VERSION),
            ],
        ),
    )
}

/// The integrity tag of a count entry.
pub open spec fn spec_count_integrity(key: Seq<char>, tokens: u64, decoded_lossily: bool) -> Seq<char> {
    blake3_hex(
        framed(
            seq![
                encode_utf8("tokm-cache-count-entry-v1"@),
                encode_utf8(key),
                spec_u64_to_le_bytes(tokens),
                seq![if decoded_lossily { 1u8 } else { 0u8 }],
            ],
        ),
    )
}

/// The integrity tag of a metadata index entry.
pub open spec fn spec_metadata_integrity(
    path_fingerprint: Seq<char>,
    size: u64,
    modified_nanos: u64,
    checkpoint_nanos: u64,
    content_hash: Seq<char>,
) -> Seq<char> {
    blake3_hex(
        framed(
            seq![
                encode_utf8("tokm-cache-metadata-entry-v1"@),
                encode_utf8(path_fingerprint),
                spec_u64_to_le_bytes(size),
                spec_u64_to_le_bytes(modified_nanos),
                spec_u64_to_le_bytes(checkpoint_nanos),
                encode_utf8(content_hash),
            ],
        ),
    )
}

proof fn lemma_framed_push(parts: Seq<Seq<u8>>, p: Seq<u8>)
    ensures
        framed(parts.push(p)) == framed(parts) + frame(p),
    decreases parts.len(),
{
    if parts.len() == 0 {
        assert(parts.push(p).drop_first() =~= Seq::<Seq<u8>>::empty());
        assert(parts.push(p)[0] == p);
        assert(framed(parts.push(p).drop_first()) == Seq::<u8>::empty());
        assert(framed(parts) == Seq::<u8>::empty());
        assert(framed(parts.push(p)) =~= framed(parts) + frame(p));
    } else {
        assert(parts.push(p).drop_first() =~= parts.drop_first().push(p));
        lemma_framed_push(parts.drop_first(), p);
        assert(framed(parts.push(p)) =~= frame(parts[0]) + (framed(parts.drop_first()) + frame(p)));
    }
}

/// Length-prefixed framing is unambiguous: two lists of components (each
/// shorter than 2^64 bytes) frame to the same bytes only when they are equal.
pub proof fn law_framing_is_injective(a: Seq<Seq<u8>>, b: Seq<Seq<u8>>)
    requires
        forall|i: int| 0 <= i < a.len() ==> #[trigger] a[i].len() <= u64::MAX,
        forall|i: int| 0 <= i < b.len() ==> #[trigger] b[i].len() <= u64::MAX,
        framed(a) == framed(b),
    ensures
        a == b,
    decreases a.len(),
{
    vstd::bytes::lemma_auto_spec_u64_to_from_le_bytes();
    if a.len() == 0 {
        if b.len() > 0 {
            assert(framed(b).len() >= 8);
        }
        assert(a =~= b);
    } else {
        if b.len() == 0 {
            assert(framed(a).len() >= 8);
        }
        let fa = frame(a[0]);
        let fb = frame(b[0]);
        let la = spec_u64_to_le_bytes(a[0].len() as u64);
        let lb = spec_u64_to_le_bytes(b[0].len() as u64);
        assert(framed(a) == la + a[0] + framed(a.drop_first()));
        assert(framed(b) == lb + b[0] + framed(b.drop_first()));
        assert(la =~= framed(a).take(8));
        assert(lb =~= framed(b).take(8));
        assert(a[0].len() == b[0].len());
        let n = a[0].len() as int;
        assert(a[0] =~= framed(a).subrange(8, 8 + n));
        assert(b[0] =~= framed(b).subrange(8, 8 + n));
        assert(framed(a.drop_first()) =~= framed(a).skip(8 + n));
        assert(framed(b.drop_first()) =~= framed(b).skip(8 + n));
        assert forall|i: int| 0 <= i < a.drop_first().len() implies #[trigger] a.drop_first()[i].len() <= u64::MAX by {
            assert(a.drop_first()[i] == a[i + 1]);
        }
        assert forall|i: int| 0 <= i < b.drop_first().len() implies #[trigger] b.drop_first()[i].len() <= u64::MAX by {
            assert(b.drop_first()[i] == b[i + 1]);
        }
        law_framing_is_injective(a.drop_first(), b.drop_first());
        assert(a =~= seq![a[0]] + a.drop_first());
        assert(b =~= seq![b[0]] + b.drop_first());
    }
}

fn push_all(out: &mut Vec<u8>, bytes: &[u8])
    ensures
        final(out)@ == old(out)@ + bytes@,
{
    let mut i: usize = 0;
    while i < bytes.len()
        invariant
            i <= bytes.len(),
            out@ == old(out)@ + bytes@.take(i as int),
        decreases bytes.len() - i,
    {
        out.push(bytes[i]);
        i += 1;
        assert(out@ =~= old(out)@ + bytes@.take(i as int));
    }
    assert(bytes@.take(bytes.len() as int) =~= bytes@);
}

/// Append one length-prefixed component.
fn push_component(out: &mut Vec<u8>, bytes: &[u8])
    ensures
        final(out)@ == old(out)@ + frame(bytes@),
{
    let len = u64_to_le_bytes(bytes.len() as u64);
    push_all(out, len.as_slice());
    push_all(out, bytes);
    assert(final(out)@ =~= old(out)@ + frame(bytes@));
}

/// The views of a list of byte slices.
pub open spec fn byte_views(parts: Seq<&[u8]>) -> Seq<Seq<u8>> {
    Seq::new(parts.len(), |i: int| parts[i]@)
}

/// The framed concatenation of `parts`.
fn framed_bytes(parts: &Vec<&[u8]>) -> (r: Vec<u8>)
    ensures
        r@ == framed(byte_views(parts@)),
{
    let mut buf: Vec<u8> = Vec::new();
    let mut i: usize = 0;
    assert(byte_views(parts@.take(0)) =~= Seq::<Seq<u8>>::empty());
    while i < parts.len()
        invariant
            i <= parts.len(),
            buf@ == framed(byte_views(parts@.take(i as int))),
        decreases parts.len() - i,
    {
        push_component(&mut buf, parts[i]);
        proof {
            lemma_framed_push(byte_views(parts@.take(i as int)), parts@[i as int]@);
            assert(byte_views(parts@.take(i as int)).push(parts@[i as int]@) =~= byte_views(
                parts@.take(i as int + 1),
            ));
        }
        i += 1;
    }
    assert(parts@.take(parts.len() as int) =~= parts@);
    buf
}

/// The BLAKE3 hex digest of the framed components.
fn digest_of(parts: &Vec<&[u8]>) -> (r: String)
    ensures
        r@ == blake3_hex(framed(byte_views(parts@))),
        r@.len() == 64,
        forall|i: int| 0 <= i < r@.len() ==> is_lower_hex_digit(#[trigger] r@[i]),
{
    let buf = framed_bytes(parts);
    blake3_hex_of(buf.as_slice())
}

/// The content-addressed key of a count for `content_hash` under the given options.
pub fn count_key(content_hash: &str, options: &CountOptions, invalid_utf8: InvalidUtf8Policy) -> (r: String)
    ensures
        r@ == spec_count_key(content_hash@, *options, invalid_utf8),
        r@.len() == 64,
        forall|i: int| 0 <= i < r@.len() ==> is_lower_hex_digit(#[trigger] r@[i]),
{
    let version = u32_to_le_bytes(COUNTING_SEMANTICS_VERSION);
    let parts: Vec<&[u8]> = vec![
        "tokm-count-key-v1".as_bytes(),
        content_hash.as_bytes(),
        options.tokenizer().metadata_ref().fingerprint.as_str().as_bytes(),
        options.text_policy().fingerprint().as_bytes(),
        invalid_utf8.fingerprint().as_bytes(),
        version.as_slice(),
    ];
    assert(byte_views(parts@) =~= seq![
        encode_utf8("tokm-count-key-v1"@),
        encode_utf8(content_hash@),
        encode_utf8(options.spec_metadata().fingerprint@),
        encode_utf8(options.spec_text_policy().spec_fingerprint()),
        encode_utf8(invalid_utf8.spec_fingerprint()),
        spec_u32_to_le_bytes(COUNTING_SEMANTICS_VERSION),
    ]);
    digest_of(&parts)
}

/// The integrity tag of a count entry.
pub fn count_integrity(key: &str, tokens: u64, decoded_lossily: bool) -> (r: String)
    ensures
        r@ == spec_count_integrity(key@, tokens, decoded_lossily),
{
    let count = u64_to_le_bytes(tokens);
    let mut flag: Vec<u8> = Vec::new();
    flag.push(if decoded_lossily { 1u8 } else { 0u8 });
    assert(flag@ =~= seq![if decoded_lossily { 1u8 } else { 0u8 }]);
    let parts: Vec<&[u8]> = vec![
        "tokm-cache-count-entry-v1".as_bytes(),
        key.as_bytes(),
        count.as_slice(),
        flag.as_slice(),
    ];
    assert(byte_views(parts@) =~= seq![
        encode_utf8("tokm-cache-count-entry-v1"@),
        encode_utf8(key@),
        spec_u64_to_le_bytes(tokens),
        seq![if decoded_lossily { 1u8 } else { 0u8 }],
    ]);
    digest_of(&parts)
}

/// The integrity tag of a metadata index entry.
pub fn metadata_integrity(
    path_fingerprint: &str,
    size: u64,
    modified_nanos: u64,
    checkpoint_nanos: u64,
    content_hash: &str,
) -> (r: String)
    ensures
        r@ == spec_metadata_integrity(path_fingerprint@, size, modified_nanos, checkpoint_nanos, content_hash@),
{
    let size_bytes = u64_to_le_bytes(size);
    let modified_bytes = u64_to_le_bytes(modified_nanos);
    let checkpoint_bytes = u64_to_le_bytes(checkpoint_nanos);
    let parts: Vec<&[u8]> = vec![
        "tokm-cache-metadata-entry-v1".as_bytes(),
        path_fingerprint.as_bytes(),
        size_bytes.as_slice(),
        modified_bytes.as_slice(),
        checkpoint_bytes.as_slice(),
        content_hash.as_bytes(),
    ];
    assert(byte_views(parts@) =~= seq![
        encode_utf8("tokm-cache-metadata-entry-v1"@),
        encode_utf8(path_fingerprint@),
        spec_u64_to_le_bytes(size),
        spec_u64_to_le_bytes(modified_nanos),
        spec_u64_to_le_bytes(checkpoint_nanos),
        encode_utf8(content_hash@),
    ]);
    digest_of(&parts)
}

/// The digest that addresses content in the count store.
pub fn content_hash(bytes: &[u8]) -> (r: String)
    ensures
        r@ == blake3_hex(bytes@),
        r@.len() == 64,
        forall|i: int| 0 <= i < r@.len() ==> is_lower_hex_digit(#[trigger] r@[i]),
{
    blake3_hex_of(bytes)
}

/// A persisted token count for some content under fixed counting semantics.
#[derive(Debug, PartialEq, Eq)]
pub struct CountEntry {
    /// Revision of the entry format.
    pub format_version: u32,
    /// Content-addressed key the entry was stored under.
    pub key: String,
    /// Token count.
    pub tokens: u64,
    /// Whether the content was decoded lossily.
    pub decoded_lossily: bool,
    /// Integrity tag over the other fields.
    pub integrity: String,
}

impl CountEntry {
    /// Whether this entry is intact and was stored under `key`.
    pub open spec fn spec_valid_for(&self, key: Seq<char>) -> bool {
        &&& self.format_version == CACHE_FORMAT_VERSION
        &&& self.key@ == key
        &&& self.integrity@ == spec_count_integrity(self.key@, self.tokens, self.decoded_lossily)
    }

    /// A fresh entry recording `count` under `key`.
    pub fn new(key: String, count: CachedCount) -> (r: Self)
        ensures
            r.format_version == CACHE_FORMAT_VERSION,
            r.key@ == key@,
            r.tokens == count.tokens,
            r.decoded_lossily == count.decoded_lossily,
            r.integrity@ == spec_count_integrity(key@, count.tokens, count.decoded_lossily),
    {
        let integrity = count_integrity(key.as_str(), count.tokens, count.decoded_lossily);
        CountEntry {
            format_version: CACHE_FORMAT_VERSION,
            key,
            tokens: count.tokens,
            decoded_lossily: count.decoded_lossily,
            integrity,
        }
    }

    /// Whether this entry is intact and was stored under `key`.
    pub fn is_valid_for(&self, key: &str) -> (r: bool)
        ensures
            r == self.spec_valid_for(key@),
    {
        if self.format_version != CACHE_FORMAT_VERSION || !str_eq(self.key.as_str(), key) {
            return false;
        }
        let expected = count_integrity(self.key.as_str(), self.tokens, self.decoded_lossily);
        str_eq(self.integrity.as_str(), expected.as_str())
    }

    /// The count this entry holds for `key`, when it may be trusted.
    pub fn count_for(&self, key: &str) -> (r: Option<CachedCount>)
        ensures
            self.spec_valid_for(key@) ==> r == Some(
                CachedCount { tokens: self.tokens, decoded_lossily: self.decoded_lossily },
            ),
            !self.spec_valid_for(key@) ==> r is None,
    {
        if self.is_valid_for(key) {
            Some(CachedCount { tokens: self.tokens, decoded_lossily: self.decoded_lossily })
        } else {
            None
        }
    }
}

/// Whether a count for `key` should be written over the entry currently stored:
/// a valid entry for the same key is kept.
pub fn should_store_count(current: Option<&CountEntry>, key: &str) -> (r: bool)
    ensures
        r == !(current matches Some(c) && c.spec_valid_for(key@)),
{
    match current {
        Some(c) => !c.is_valid_for(key),
        None => true,
    }
}

/// A persisted link from a path and its observed metadata to a content hash.
#[derive(Debug, PartialEq, Eq)]
pub struct MetadataEntry {
    /// Revision of the entry format.
    pub format_version: u32,
    /// Digest of the absolute, cleaned path.
    pub path_fingerprint: String,
    /// File size when the entry was recorded.
    pub size: u64,
    /// Modification time when the entry was recorded.
    pub modified_nanos: u64,
    /// Moment the entry was recorded.
    pub checkpoint_nanos: u64,
    /// Digest of the content read at that moment.
    pub content_hash: String,
    /// Integrity tag over the other fields.
    pub integrity: String,
}

impl MetadataEntry {
    /// Whether the entry is of the current format and its integrity tag matches.
    pub open spec fn spec_intact(&self) -> bool {
        &&& self.format_version == CACHE_FORMAT_VERSION
        &&& self.integrity@ == spec_metadata_integrity(
            self.path_fingerprint@,
            self.size,
            self.modified_nanos,
            self.checkpoint_nanos,
            self.content_hash@,
        )
    }

    /// Whether the entry may stand for a path with this fingerprint and metadata:
    /// it must be intact, describe the same size and modification time, and have
    /// been recorded more than the racy window after that modification time.
    pub open spec fn spec_usable(&self, path_fingerprint: Seq<char>, snapshot: MetadataSnapshot) -> bool {
        &&& snapshot.modified_nanos matches Some(m)
        &&& self.spec_intact()
        &&& self.path_fingerprint@ == path_fingerprint
        &&& self.size == snapshot.size
        &&& self.modified_nanos == m
        &&& m + RACY_MTIME_WINDOW_NANOS <= u64::MAX
        &&& m + RACY_MTIME_WINDOW_NANOS < self.checkpoint_nanos
    }

    /// A fresh entry.
    pub fn new(
        path_fingerprint: String,
        size: u64,
        modified_nanos: u64,
        checkpoint_nanos: u64,
        content_hash: String,
    ) -> (r: Self)
        ensures
            r.format_version == CACHE_FORMAT_VERSION,
            r.path_fingerprint@ == path_fingerprint@,
            r.size == size,
            r.modified_nanos == modified_nanos,
            r.checkpoint_nanos == checkpoint_nanos,
            r.content_hash@ == content_hash@,
            r.spec_intact(),
    {
        let integrity = metadata_integrity(
            path_fingerprint.as_str(),
            size,
            modified_nanos,
            checkpoint_nanos,
            content_hash.as_str(),
        );
        MetadataEntry {
            format_version: CACHE_FORMAT_VERSION,
            path_fingerprint,
            size,
            modified_nanos,
            checkpoint_nanos,
            content_hash,
            integrity,
        }
    }

    /// The entry to record for a path whose metadata was `snapshot` when its
    /// content hashed to `content_hash`, recorded at `checkpoint_nanos`; none
    /// when the modification time is unknown.
    pub fn for_snapshot(
        path_fingerprint: String,
        snapshot: MetadataSnapshot,
        checkpoint_nanos: u64,
        content_hash: String,
    ) -> (r: Option<Self>)
        ensures
            match snapshot.modified_nanos {
                None => r is None,
                Some(m) => (r matches Some(e) && e.spec_intact() && e.path_fingerprint@ == path_fingerprint@
                    && e.size == snapshot.size && e.modified_nanos == m && e.checkpoint_nanos
                    == checkpoint_nanos && e.content_hash@ == content_hash@),
            },
    {
        match snapshot.modified_nanos {
            None => None,
            Some(m) => Some(MetadataEntry::new(path_fingerprint, snapshot.size, m, checkpoint_nanos, content_hash)),
        }
    }

    /// Whether the entry is of the current format and its integrity tag matches.
    pub fn is_intact(&self) -> (r: bool)
        ensures
            r == self.spec_intact(),
    {
        if self.format_version != CACHE_FORMAT_VERSION {
            return false;
        }
        let expected = metadata_integrity(
            self.path_fingerprint.as_str(),
            self.size,
            self.modified_nanos,
            self.checkpoint_nanos,
            self.content_hash.as_str(),
        );
        str_eq(self.integrity.as_str(), expected.as_str())
    }

    /// Whether the entry may stand for a path with this fingerprint and metadata.
    pub fn is_usable(&self, path_fingerprint: &str, snapshot: MetadataSnapshot) -> (r: bool)
        ensures
            r == self.spec_usable(path_fingerprint@, snapshot),
    {
        let modified_nanos = match snapshot.modified_nanos {
            Some(m) => m,
            None => {
                return false;
            },
        };
        if !self.is_intact() || !str_eq(self.path_fingerprint.as_str(), path_fingerprint)
            || self.size != snapshot.size || self.modified_nanos != modified_nanos {
            return false;
        }
        match modified_nanos.checked_add(RACY_MTIME_WINDOW_NANOS) {
            Some(safe_before) => safe_before < self.checkpoint_nanos,
            None => false,
        }
    }

    /// The content hash this entry gives for the path, when it may be trusted.
    pub fn content_hash_for(&self, path_fingerprint: &str, snapshot: MetadataSnapshot) -> (r: Option<String>)
        ensures
            self.spec_usable(path_fingerprint@, snapshot) ==> (r matches Some(h) && h@ == self.content_hash@),
            !self.spec_usable(path_fingerprint@, snapshot) ==> r is None,
    {
        if self.is_usable(path_fingerprint, snapshot) {
            Some(self.content_hash.clone())
        } else {
            None
        }
    }
}

/// Whether an index entry recorded at `checkpoint_nanos` should be written over
/// the entry currently stored: an intact entry recorded later is kept.
pub fn should_store_metadata(current: Option<&MetadataEntry>, checkpoint_nanos: u64) -> (r: bool)
    ensures
        r == !(current matches Some(c) && c.spec_intact() && c.checkpoint_nanos > checkpoint_nanos),
{
    match current {
        Some(c) => !(c.is_intact() && c.checkpoint_nanos > checkpoint_nanos),
        None => true,
    }
}

/// A count stored under a key is given back by a lookup under the same key.
pub proof fn law_stored_count_is_found(key: Seq<char>, count: CachedCount, e: CountEntry)
    requires
        e.format_version == CACHE_FORMAT_VERSION,
        e.key@ == key,
        e.tokens == count.tokens,
        e.decoded_lossily == count.decoded_lossily,
        e.integrity@ == spec_count_integrity(key, count.tokens, count.decoded_lossily),
    ensures
        e.spec_valid_for(key),
{
}

/// An index entry recorded more than the racy window after the modification
/// time it describes is usable for that same path and metadata, and an entry
/// recorded within the window never is.
pub proof fn law_racy_entries_are_never_trusted(e: MetadataEntry, fingerprint: Seq<char>, snapshot: MetadataSnapshot)
    requires
        e.spec_intact(),
        e.path_fingerprint@ == fingerprint,
        e.size == snapshot.size,
        snapshot.modified_nanos == Some(e.modified_nanos),
    ensures
        e.spec_usable(fingerprint, snapshot) <==> e.modified_nanos + RACY_MTIME_WINDOW_NANOS < e.checkpoint_nanos,
{
}

/// What `path_clean::clean` makes of a path: the lexically cleaned path.
pub uninterp spec fn cleaned_path(path: Seq<char>) -> Seq<char>;

/// `path_clean::clean(path)`: the path with repeated separators, `.` elements and
/// resolvable `..` elements removed, as text. The result is only named.
#[verifier::external_body]
pub(crate) fn clean_path(path: &str) -> (r: String)
    ensures
        r@ == cleaned_path(path@),
{
    path_clean::clean(path).to_string_lossy().into_owned()
}

/// `directories::ProjectDirs::from("", "", application)` and its `cache_dir()`,
/// as text: the per-user cache directory of the platform. It depends on the
/// environment and the platform, so nothing is claimed of it.
#[verifier::external_body]
fn default_cache_dir(application: &str) -> (r: Option<String>) {
    let dirs = directories::ProjectDirs::from("", "", application)?;
    let dir = dirs.cache_dir().to_str()?;
    Some(dir.to_owned())
}

/// `base` joined with the relative or absolute path `c`, as `PathBuf::join` does on Unix.
pub open spec fn join_path(base: Seq<char>, c: Seq<char>) -> Seq<char> {
    if c.len() > 0 && c[0] == '/' {
        c
    } else if base.len() == 0 || base.last() == '/' {
        base + c
    } else {
        base + seq!['/'] + c
    }
}

/// `base` joined with `c`.
pub fn join(base: &str, c: &str) -> (r: String)
    ensures
        r@ == join_path(base@, c@),
{
    let b = chars_of(base);
    let cc = chars_of(c);
    if cc.len() > 0 && cc[0] == '/' {
        return string_of(cc.as_slice());
    }
    if b.len() == 0 || b[b.len() - 1] == '/' {
        concat(base, c)
    } else {
        proof {
            reveal_strlit("/");
            assert("/"@ =~= seq!['/']);
        }
        concat3(base, "/", c)
    }
}

/// The digest that identifies a path in the metadata index: the BLAKE3 digest of
/// the cleaned absolute path, a relative path being taken from `cwd`. None for a
/// relative path when the working directory is unknown.
pub open spec fn spec_path_fingerprint(path: Seq<char>, cwd: Option<Seq<char>>) -> Option<Seq<char>> {
    if path.len() > 0 && path[0] == '/' {
        Some(blake3_hex(encode_utf8(cleaned_path(path))))
    } else {
        match cwd {
            Some(c) => Some(blake3_hex(encode_utf8(cleaned_path(join_path(c, path))))),
            None => None,
        }
    }
}

/// The view of an optional string slice.
pub open spec fn str_view(o: Option<&str>) -> Option<Seq<char>> {
    match o {
        Some(s) => Some(s@),
        None => None,
    }
}

/// The digest that identifies a path in the metadata index.
pub fn path_fingerprint(path: &str, cwd: Option<&str>) -> (r: Option<String>)
    ensures
        match r {
            Some(f) => spec_path_fingerprint(path@, str_view(cwd)) == Some(f@),
            None => spec_path_fingerprint(path@, str_view(cwd)) is None,
        },
{
    let p = chars_of(path);
    let absolute = if p.len() > 0 && p[0] == '/' {
        clean_path(path)
    } else {
        match cwd {
            Some(c) => {
                let joined = join(c, path);
                clean_path(joined.as_str())
            },
            None => {
                return None;
            },
        }
    };
    Some(blake3_hex_of(absolute.as_str().as_bytes()))
}

/// The root of a persistent cache.
#[derive(Debug, PartialEq, Eq)]
pub struct Cache {
    root: String,
}

impl Cache {
    /// The cache root directory.
    pub closed spec fn spec_root(&self) -> Seq<char> {
        self.root@
    }

    /// A cache rooted at `root`.
    pub fn at(root: String) -> (r: Cache)
        ensures
            r.spec_root() == root@,
    {
        Cache { root }
    }

    /// The cache root directory.
    pub fn root(&self) -> (r: &str)
        ensures
            r@ == self.spec_root(),
    {
        self.root.as_str()
    }

    /// The cache a policy selects, `default_root` standing for the platform's
    /// per-user cache directory.
    pub fn resolve_with(policy: &CachePolicy, default_root: Option<String>) -> (r: Option<Cache>)
        ensures
            match policy {
                CachePolicy::Disabled => r is None,
                CachePolicy::Directory(p) => (r matches Some(c) && c.spec_root() == p@),
                CachePolicy::Default => match default_root {
                    Some(d) => (r matches Some(c) && c.spec_root() == d@),
                    None => r is None,
                },
            },
    {
        match policy {
            CachePolicy::Disabled => None,
            CachePolicy::Directory(p) => Some(Cache { root: p.clone() }),
            CachePolicy::Default => match default_root {
                Some(d) => Some(Cache { root: d }),
                None => None,
            },
        }
    }

    /// The cache a policy selects; the default policy asks the platform for the
    /// per-user cache directory of this tool.
    pub fn resolve(policy: &CachePolicy) -> (r: Option<Cache>)
        ensures
            policy is Disabled ==> r is None,
            policy matches CachePolicy::Directory(p) ==> (r matches Some(c) && c.spec_root() == p@),
    {
        let default_root = match policy {
            CachePolicy::Default => default_cache_dir("tokm"),
            _ => None,
        };
        Cache::resolve_with(policy, default_root)
    }

    /// The file that holds the count stored under `key`.
    pub open spec fn spec_count_path(&self, key: Seq<char>) -> Seq<char> {
        join_path(
            join_path(join_path(join_path(self.spec_root(), "counts"@), "1"@), key.take(2)),
            key + ".json"@,
        )
    }

    /// The file that holds the index entry of the path with this fingerprint.
    pub open spec fn spec_metadata_path(&self, fingerprint: Seq<char>) -> Seq<char> {
        join_path(
            join_path(join_path(join_path(self.spec_root(), "index"@), "1"@), fingerprint.take(2)),
            fingerprint + ".json"@,
        )
    }

    /// The file that holds the count stored under `key`, grouped by the key's
    /// first two hex digits.
    pub fn count_path(&self, key: &str) -> (r: String)
        requires
            key@.len() >= 2,
            is_lower_hex_digit(key@[0]),
            is_lower_hex_digit(key@[1]),
        ensures
            r@ == self.spec_count_path(key@),
    {
        self.entry_path("counts", key)
    }

    /// The file that holds the index entry of the path with this fingerprint.
    pub fn metadata_path(&self, fingerprint: &str) -> (r: String)
        requires
            fingerprint@.len() >= 2,
            is_lower_hex_digit(fingerprint@[0]),
            is_lower_hex_digit(fingerprint@[1]),
        ensures
            r@ == self.spec_metadata_path(fingerprint@),
    {
        self.entry_path("index", fingerprint)
    }

    fn entry_path(&self, area: &str, name: &str) -> (r: String)
        requires
            name@.len() >= 2,
        ensures
            r@ == join_path(
                join_path(join_path(join_path(self.spec_root(), area@), "1"@), name@.take(2)),
                name@ + ".json"@,
            ),
    {
        let chars = chars_of(name);
        let shard = string_of(&chars.as_slice()[0..2]);
        proof {
            assert(chars@.subrange(0, 2) =~= name@.take(2));
        }
        let a = join(self.root.as_str(), area);
        let b = join(a.as_str(), "1");
        let c = join(b.as_str(), shard.as_str());
        let file = concat(name, ".json");
        join(c.as_str(), file.as_str())
    }
}

} // verus!
