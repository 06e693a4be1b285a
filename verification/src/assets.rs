//! The asset model: requests, cache keys, content-addressed encoding, and the
//! write-once entry map at the heart of the single-flight cache.

use vstd::prelude::*;

use base64::Engine as _;

use crate::sniff::{opt_view, sniff_mime_and_ext, spec_sniff};
use crate::strutil::chars_of;
use crate::strutil::vecs_eq;

verus! {

/// What an asset is used for: picks the storage subdirectory and the
/// fallback MIME heuristics, never the fetch behaviour.
#[derive(Debug, Clone, Copy, PartialEq, Eq, Structural)]
pub enum AssetKind {
    Avatar,
    Image,
    Font,
    Other,
}

/// Where an asset's bytes come from.
#[derive(Debug)]
pub enum AssetSource {
    Remote(String),
    Local(String),
}

/// One logical asset request.
#[derive(Debug)]
pub struct AssetRequest {
    pub kind: AssetKind,
    pub source: AssetSource,
}

/// How resolved assets are encoded: written under an assets directory, or
/// inlined as data URIs. Fixed for the lifetime of a store.
#[derive(Debug, Clone, Copy, PartialEq, Eq, Structural)]
pub enum OutputMode {
    Dir,
    Single,
}

/// The cache key of a request: two requests are cache-equivalent exactly when
/// their keys agree — the absolute URL for remote sources, a path-prefixed
/// string for local ones.
pub open spec fn spec_request_key(r: AssetRequest) -> Seq<char> {
    match r.source {
        AssetSource::Remote(u) => u@,
        AssetSource::Local(p) => "file:"@ + p@,
    }
}

/// Computes the cache key of a request.
pub fn request_key(r: &AssetRequest) -> (k: String)
    ensures
        k@ == spec_request_key(*r),
{
    match &r.source {
        AssetSource::Remote(u) => u.clone(),
        AssetSource::Local(p) => {
            let mut k = String::from_str("file:");
            k.append(p.as_str());
            k
        },
    }
}

/// The storage subdirectory of each asset kind.
pub open spec fn spec_kind_subdir(kind: AssetKind) -> Seq<char> {
    match kind {
        AssetKind::Avatar => "avatar"@,
        AssetKind::Image => "img"@,
        AssetKind::Font => "font"@,
        AssetKind::Other => "other"@,
    }
}

/// Names the storage subdirectory for an asset kind.
pub fn kind_subdir(kind: AssetKind) -> (r: &'static str)
    ensures
        r@ == spec_kind_subdir(kind),
{
    match kind {
        AssetKind::Avatar => "avatar",
        AssetKind::Image => "img",
        AssetKind::Font => "font",
        AssetKind::Other => "other",
    }
}

/// The padded standard base64 encoding of `bytes`.
pub uninterp spec fn base64_of(bytes: Seq<u8>) -> Seq<char>;

/// Relies on `base64::engine::general_purpose::STANDARD` and
/// `base64::Engine::encode`: the padded standard-alphabet encoding, a
/// function of the bytes alone, four characters per started three-byte block.
#[verifier::external_body]
pub(crate) fn b64_encode(bytes: &Vec<u8>) -> (r: String)
    ensures
        r@ == base64_of(bytes@),
        r@.len() == 4 * ((bytes@.len() + 2) / 3),
{
    base64::engine::general_purpose::STANDARD.encode(bytes)
}

/// The lowercase hexadecimal BLAKE3 digest of `bytes`.
pub uninterp spec fn blake3_hex_of(bytes: Seq<u8>) -> Seq<char>;

/// Relies on `blake3::hash` and `blake3::Hash::to_hex`: a 64-character
/// lowercase hex digest, a function of the bytes alone.
#[verifier::external_body]
pub(crate) fn blake3_hex(bytes: &Vec<u8>) -> (r: String)
    ensures
        r@ == blake3_hex_of(bytes@),
        r@.len() == 64,
{
    String::from(blake3::hash(bytes.as_slice()).to_hex().as_str())
}

/// The inline encoding of an asset: `data:<mime>;base64,<payload>`.
pub open spec fn spec_data_uri(mime: Seq<char>, bytes: Seq<u8>) -> Seq<char> {
    "data:"@ + mime + ";base64,"@ + base64_of(bytes)
}

/// Builds the inline `data:` URI for an asset.
pub fn encode_data_uri(mime: &str, bytes: &Vec<u8>) -> (r: String)
    ensures
        r@ == spec_data_uri(mime@, bytes@),
{
    let mut r = String::from_str("data:");
    r.append(mime);
    r.append(";base64,");
    let payload = b64_encode(bytes);
    r.append(payload.as_str());
    r
}

/// The content-addressed path of an asset relative to the output directory:
/// `<assets_dir>/<kind_subdir>/<content_hash>.<ext>`. Identical bytes give an
/// identical hash component, whatever their source.
pub open spec fn spec_asset_rel_path(
    assets_dir: Seq<char>,
    kind: AssetKind,
    bytes: Seq<u8>,
    ext: Seq<char>,
) -> Seq<char> {
    assets_dir + seq!['/'] + spec_kind_subdir(kind) + seq!['/'] + blake3_hex_of(bytes) + seq!['.']
        + ext
}

/// Builds the content-addressed relative path for an asset.
pub fn asset_rel_path(assets_dir: &str, kind: AssetKind, bytes: &Vec<u8>, ext: &str) -> (r: String)
    ensures
        r@ == spec_asset_rel_path(assets_dir@, kind, bytes@, ext@),
{
    let mut r = String::from_str(assets_dir);
    r.append("/");
    r.append(kind_subdir(kind));
    r.append("/");
    let hash = blake3_hex(bytes);
    r.append(hash.as_str());
    r.append(".");
    r.append(ext);
    proof {
        reveal_strlit("/");
        reveal_strlit(".");
        assert(r@ =~= spec_asset_rel_path(assets_dir@, kind, bytes@, ext@));
    }
    r
}

/// What a settled request encodes to, given its fetched bytes: the inferred
/// mime and extension feed either the data URI or the stored relative path.
pub open spec fn spec_encode_asset(
    mode: OutputMode,
    assets_dir: Seq<char>,
    kind: AssetKind,
    bytes: Seq<u8>,
    hint: Option<Seq<char>>,
    remote_path: Option<Seq<char>>,
) -> Seq<char> {
    let inferred = spec_sniff(bytes, hint, kind, remote_path);
    match mode {
        OutputMode::Single => spec_data_uri(inferred.0, bytes),
        OutputMode::Dir => spec_asset_rel_path(assets_dir, kind, bytes, inferred.1),
    }
}

/// Encodes fetched bytes per the output mode. In directory mode the caller
/// still owns writing the bytes at the returned relative path.
pub fn encode_asset(
    mode: OutputMode,
    assets_dir: &str,
    kind: AssetKind,
    bytes: &Vec<u8>,
    hint: Option<&str>,
    remote_path: Option<&str>,
) -> (r: String)
    ensures
        r@ == spec_encode_asset(mode, assets_dir@, kind, bytes@, opt_view(hint), opt_view(
            remote_path,
        )),
{
    let inferred = sniff_mime_and_ext(bytes, hint, kind, remote_path);
    match mode {
        OutputMode::Single => encode_data_uri(inferred.0.as_str(), bytes),
        OutputMode::Dir => asset_rel_path(assets_dir, kind, bytes, inferred.1.as_str()),
    }
}

/// Content addressing: two requests of the same kind whose fetched bytes are
/// identical encode identically — in directory mode to the same stored path,
/// in single mode to the same data URI — whatever URL or path they came from,
/// provided the inference did not fall through to the source's extension.
pub proof fn lemma_content_addressing(
    mode: OutputMode,
    assets_dir: Seq<char>,
    kind: AssetKind,
    bytes: Seq<u8>,
    hint: Option<Seq<char>>,
    p1: Option<Seq<char>>,
    p2: Option<Seq<char>>,
)
    requires
        !crate::sniff::sniff_uses_path(bytes, hint, kind),
    ensures
        spec_encode_asset(mode, assets_dir, kind, bytes, hint, p1) == spec_encode_asset(
            mode,
            assets_dir,
            kind,
            bytes,
            hint,
            p2,
        ),
{
    crate::sniff::lemma_sniff_source_independent(bytes, hint, kind, p1, p2);
}

/// The settled value of a cache entry: the encoded representation, or the
/// recorded error text.
#[derive(Debug)]
pub enum Settled {
    Stored(String),
    Failed(String),
}

/// View of a settled value.
pub open spec fn settled_view(s: Settled) -> Result<Seq<char>, Seq<char>> {
    match s {
        Settled::Stored(v) => Ok(v@),
        Settled::Failed(e) => Err(e@),
    }
}

/// Copies a settled value, keeping its view.
pub fn dup_settled(s: &Settled) -> (r: Settled)
    ensures
        settled_view(r) == settled_view(*s),
{
    match s {
        Settled::Stored(v) => Settled::Stored(v.clone()),
        Settled::Failed(e) => Settled::Failed(e.clone()),
    }
}

/// The settled entries of one render run, keyed by request key. Entries are
/// write-once: settling a key that is already present changes nothing, so a
/// settled value — success or error — stands for the rest of the run.
pub struct AssetEntries {
    entries: Vec<(String, Settled)>,
}

impl AssetEntries {
    /// The map this entry list stands for.
    pub closed spec fn view(&self) -> Map<Seq<char>, Result<Seq<char>, Seq<char>>> {
        Self::map_of(self.entries@)
    }

    pub closed spec fn map_of(entries: Seq<(String, Settled)>) -> Map<
        Seq<char>,
        Result<Seq<char>, Seq<char>>,
    >
        decreases entries.len(),
    {
        if entries.len() == 0 {
            Map::empty()
        } else {
            Self::map_of(entries.drop_last()).insert(
                entries.last().0@,
                settled_view(entries.last().1),
            )
        }
    }

    /// Keys are never repeated, so the map loses nothing.
    pub closed spec fn wf(&self) -> bool {
        forall|i: int, j: int|
            0 <= i < j < self.entries@.len() ==> self.entries@[i].0@ != self.entries@[j].0@
    }

    proof fn lemma_map_of_contains(entries: Seq<(String, Settled)>, k: Seq<char>)
        ensures
            Self::map_of(entries).dom().contains(k) <==> exists|i: int|
                0 <= i < entries.len() && entries[i].0@ == k,
        decreases entries.len(),
    {
        if entries.len() > 0 {
            Self::lemma_map_of_contains(entries.drop_last(), k);
            if entries.last().0@ == k {
                assert(entries[entries.len() - 1].0@ == k);
            } else {
                if Self::map_of(entries).dom().contains(k) {
                    let i = choose|i: int|
                        0 <= i < entries.drop_last().len() && entries.drop_last()[i].0@ == k;
                    assert(entries[i].0@ == k);
                }
                if exists|i: int| 0 <= i < entries.len() && entries[i].0@ == k {
                    let i = choose|i: int| 0 <= i < entries.len() && entries[i].0@ == k;
                    assert(entries.drop_last()[i].0@ == k);
                }
            }
        }
    }

    proof fn lemma_map_of_at(entries: Seq<(String, Settled)>, i: int)
        requires
            0 <= i < entries.len(),
            forall|a: int, b: int|
                0 <= a < b < entries.len() ==> entries[a].0@ != entries[b].0@,
        ensures
            Self::map_of(entries).dom().contains(entries[i].0@),
            Self::map_of(entries)[entries[i].0@] == settled_view(entries[i].1),
        decreases entries.len(),
    {
        if i + 1 == entries.len() {
        } else {
            Self::lemma_map_of_at(entries.drop_last(), i);
        }
    }

    /// An empty entry map.
    pub fn new() -> (r: AssetEntries)
        ensures
            r@ == Map::<Seq<char>, Result<Seq<char>, Seq<char>>>::empty(),
            r.wf(),
    {
        AssetEntries { entries: Vec::new() }
    }

    /// Looks a key up; a settled entry is returned as it was recorded.
    pub fn lookup(&self, key: &str) -> (r: Option<Settled>)
        requires
            self.wf(),
        ensures
            (r is Some) == self@.dom().contains(key@),
            r matches Some(v) ==> self@[key@] == settled_view(v),
    {
        let kv = chars_of(key);
        let mut i: usize = 0;
        while i < self.entries.len()
            invariant
                self.wf(),
                kv@ == key@,
                i <= self.entries@.len(),
                forall|k: int| 0 <= k < i ==> self.entries@[k].0@ != key@,
            decreases self.entries.len() - i,
        {
            let ev = chars_of(self.entries[i].0.as_str());
            if vecs_eq(&ev, &kv) {
                proof {
                    Self::lemma_map_of_at(self.entries@, i as int);
                }
                return Some(dup_settled(&self.entries[i].1));
            }
            i = i + 1;
        }
        proof {
            Self::lemma_map_of_contains(self.entries@, key@);
        }
        None
    }

    /// Settles a key. A key already settled keeps its first value: at most
    /// one settlement per key ever takes effect in a run.
    pub fn settle(&mut self, key: String, value: Settled)
        requires
            old(self).wf(),
        ensures
            final(self).wf(),
            final(self)@ == spec_settle(old(self)@, key@, settled_view(value)),
    {
        if self.lookup(key.as_str()).is_some() {
            return ;
        }
        proof {
            Self::lemma_map_of_contains(self.entries@, key@);
        }
        self.entries.push((key, value));
        proof {
            assert(self.entries@.drop_last() =~= old(self).entries@);
        }
    }
}

/// What one settlement does to the entry map: a fresh key is inserted, a key
/// already present keeps its first value.
pub open spec fn spec_settle(
    m: Map<Seq<char>, Result<Seq<char>, Seq<char>>>,
    k: Seq<char>,
    v: Result<Seq<char>, Seq<char>>,
) -> Map<Seq<char>, Result<Seq<char>, Seq<char>>> {
    if m.dom().contains(k) {
        m
    } else {
        m.insert(k, v)
    }
}

/// The entry map after a whole sequence of settlements, applied in order.
pub open spec fn spec_settle_all(
    m: Map<Seq<char>, Result<Seq<char>, Seq<char>>>,
    ops: Seq<(Seq<char>, Result<Seq<char>, Seq<char>>)>,
) -> Map<Seq<char>, Result<Seq<char>, Seq<char>>>
    decreases ops.len(),
{
    if ops.len() == 0 {
        m
    } else {
        spec_settle_all(spec_settle(m, ops.first().0, ops.first().1), ops.drop_first())
    }
}

/// Single-flight settlement. After a first settlement of `k` with `v1`, a
/// second settlement with any `v2` changes nothing, and the key still reads
/// `v1`: every caller of one key observes the first recorded value.
pub proof fn lemma_settle_write_once(
    m: Map<Seq<char>, Result<Seq<char>, Seq<char>>>,
    k: Seq<char>,
    v1: Result<Seq<char>, Seq<char>>,
    v2: Result<Seq<char>, Seq<char>>,
)
    requires
        !m.dom().contains(k),
    ensures
        ({
            let m1 = spec_settle(m, k, v1);
            let m2 = spec_settle(m1, k, v2);
            m2 == m1 && m2[k] == v1 && m2.dom().contains(k)
        }),
{
}

/// Single-flight settlement, in general: once a key is settled, any number
/// of later settlements — whatever their keys, values and order — leave its
/// entry at the first recorded value.
pub proof fn lemma_settle_write_once_general(
    m: Map<Seq<char>, Result<Seq<char>, Seq<char>>>,
    k: Seq<char>,
    ops: Seq<(Seq<char>, Result<Seq<char>, Seq<char>>)>,
)
    requires
        m.dom().contains(k),
    ensures
        spec_settle_all(m, ops).dom().contains(k),
        spec_settle_all(m, ops)[k] == m[k],
    decreases ops.len(),
{
    if ops.len() > 0 {
        let m1 = spec_settle(m, ops.first().0, ops.first().1);
        assert(m1.dom().contains(k) && m1[k] == m[k]);
        lemma_settle_write_once_general(m1, k, ops.drop_first());
    }
}

} // verus!
