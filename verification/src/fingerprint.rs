//! Sync-state fingerprints.
//!
//! Since encrypted entries cannot be compared without decrypting, the content
//! hashes of both the `.enc` file and the plaintext target are recorded after
//! each successful sync; copy-mode entries record the hashes of their repo
//! source and target.  Comparing current hashes against the stored ones tells
//! whether an entry is still in sync, and which side changed.
//!
//! The store is kept in `~/.dotling/fingerprints.toml`:
//!
//! ```toml
//! # dotling sync fingerprints — managed by dotling
//!
//! [[entries]]
//! source      = "secrets/ssh_config"
//! enc_hash    = "a3f2..."
//! target_hash = "7c01..."
//! ```

use vstd::prelude::*;

use blake2::Digest;

use crate::config::good_line;
use crate::text::{
    lemma_index_of_at, lemma_index_of_none, lemma_lines_join, lemma_trim_noop, index_of,
    before_char, is_ws, lemma_trimmed_ends, lemma_trim_key_space, lemma_trim_one_space, copy_vec,
    chars_of, clean_line, clean_line_vec, join_lines, trim_start, trim_end, lemma_join_lines_append, lines, lines_vec, push_all, push_str,
    same, same_str, seqs_of, split_once, split_once_vec, str_eq, string_of, trim, trim_vec,
};
use crate::vars::{trim_char, trim_char_vec};

verus! {

// ── Hashing ───────────────────────────────────────────────────────

/// The BLAKE2s-256 digest of some bytes.
pub uninterp spec fn blake2s256(data: Seq<u8>) -> Seq<u8>;

/// `Blake2s256::digest`.
///
/// Trusted: the `blake2` crate's `Digest::digest` hashes the bytes with
/// BLAKE2s-256, whose output is 32 bytes; the digest is named here and not
/// written out.
#[verifier::external_body]
fn blake2s_digest(data: &[u8]) -> (r: Vec<u8>)
    ensures
        r@ == blake2s256(data@),
        r@.len() == 32,
{
    <blake2::Blake2s256 as Digest>::digest(data).to_vec()
}

pub open spec fn hex_digit(n: u8) -> char {
    if n < 10 {
        ((n + 48) as u32) as char
    } else {
        ((n + 87) as u32) as char
    }
}

/// Two lowercase hex digits per byte.
pub open spec fn hex(data: Seq<u8>) -> Seq<char>
    decreases data.len(),
{
    if data.len() == 0 {
        Seq::empty()
    } else {
        hex(data.drop_last()) + seq![hex_digit(data.last() / 16), hex_digit(data.last() % 16)]
    }
}

fn hex_digit_exec(n: u8) -> (c: char)
    requires
        n < 16,
    ensures
        c == hex_digit(n),
{
    if n < 10 {
        ((n + 48) as u32 as u8) as char
    } else {
        ((n + 87) as u32 as u8) as char
    }
}

/// Lowercase hex encoding.
pub fn hex_encode(data: &[u8]) -> (r: String)
    ensures
        r@ == hex(data@),
{
    let mut out: Vec<char> = Vec::new();
    let mut i: usize = 0;
    while i < data.len()
        invariant
            i <= data@.len(),
            out@ == hex(data@.take(i as int)),
        decreases data@.len() - i,
    {
        let b = data[i];
        out.push(hex_digit_exec(b / 16));
        out.push(hex_digit_exec(b % 16));
        proof {
            assert(data@.take(i + 1).drop_last() == data@.take(i as int));
            assert(data@.take(i + 1).last() == b);
        }
        i += 1;
    }
    assert(data@.take(data@.len() as int) == data@);
    string_of(&out)
}

pub proof fn lemma_hex_len(data: Seq<u8>)
    ensures
        hex(data).len() == 2 * data.len(),
    decreases data.len(),
{
    if data.len() > 0 {
        lemma_hex_len(data.drop_last());
    }
}

/// The fingerprint of a file's bytes: the lowercase hex of their BLAKE2s-256
/// digest.
pub fn hash_bytes(bytes: &[u8]) -> (r: String)
    ensures
        r@ == hex(blake2s256(bytes@)),
        r@.len() == 64,
{
    let d = blake2s_digest(bytes);
    proof {
        lemma_hex_len(d@);
    }
    hex_encode(&d)
}

/// The bytes a directory's fingerprint is taken over: each file's path
/// relative to the directory, then its content, in the order given.
pub open spec fn tree_bytes(files: Seq<(Seq<u8>, Seq<u8>)>) -> Seq<u8>
    decreases files.len(),
{
    if files.len() == 0 {
        Seq::empty()
    } else {
        tree_bytes(files.drop_last()) + files.last().0 + files.last().1
    }
}

/// The fingerprint of a directory: the hex BLAKE2s-256 digest of each file's
/// relative path followed by its content, files in path order.
pub fn hash_tree(files: &Vec<(Vec<u8>, Vec<u8>)>) -> (r: String)
    ensures
        r@ == hex(blake2s256(tree_bytes(files@.map_values(|f: (Vec<u8>, Vec<u8>)| (f.0@, f.1@))))),
        r@.len() == 64,
{
    let ghost fs = files@.map_values(|f: (Vec<u8>, Vec<u8>)| (f.0@, f.1@));
    let mut buf: Vec<u8> = Vec::new();
    let mut i: usize = 0;
    while i < files.len()
        invariant
            i <= files@.len(),
            fs == files@.map_values(|f: (Vec<u8>, Vec<u8>)| (f.0@, f.1@)),
            buf@ == tree_bytes(fs.take(i as int)),
        decreases files@.len() - i,
    {
        let (p, c) = &files[i];
        let mut k: usize = 0;
        let ghost b0 = buf@;
        while k < p.len()
            invariant
                k <= p@.len(),
                buf@ == b0 + p@.take(k as int),
            decreases p@.len() - k,
        {
            buf.push(p[k]);
            assert(p@.take(k + 1) == p@.take(k as int).push(p@[k as int]));
            k += 1;
        }
        let ghost b1 = buf@;
        let mut k: usize = 0;
        while k < c.len()
            invariant
                k <= c@.len(),
                buf@ == b1 + c@.take(k as int),
            decreases c@.len() - k,
        {
            buf.push(c[k]);
            assert(c@.take(k + 1) == c@.take(k as int).push(c@[k as int]));
            k += 1;
        }
        proof {
            assert(p@.take(p@.len() as int) == p@);
            assert(c@.take(c@.len() as int) == c@);
            assert(fs.take(i + 1).drop_last() == fs.take(i as int));
            assert(fs.take(i + 1).last() == (p@, c@));
            assert(buf@ =~= b0 + p@ + c@);
        }
        i += 1;
    }
    assert(fs.take(fs.len() as int) == fs);
    hash_bytes(&buf)
}

} // verus!

verus! {

// ── Records ───────────────────────────────────────────────────────

/// Hashes recorded for a single entry at last-sync time.
#[derive(Debug, Clone)]
pub struct EntryFingerprint {
    /// Hex digest of the `.enc` file bytes (encrypted entries).
    pub enc_hash: String,
    /// Hex digest of the plaintext target bytes.
    pub target_hash: String,
    /// Hex digest of the plaintext repo source file (copy-mode entries).
    /// Empty for encrypted entries.
    pub source_hash: String,
}

/// `(enc_hash, target_hash, source_hash)`.
pub type FpView = (Seq<char>, Seq<char>, Seq<char>);

pub open spec fn fp_view(f: EntryFingerprint) -> FpView {
    (f.enc_hash@, f.target_hash@, f.source_hash@)
}

pub type Records = Seq<(Seq<char>, FpView)>;

pub open spec fn records_of(v: Seq<(String, EntryFingerprint)>) -> Records {
    v.map_values(|p: (String, EntryFingerprint)| (p.0@, fp_view(p.1)))
}

/// Which side(s) of a copy-mode entry have changed since the last sync.
#[derive(Debug, Clone, Copy, PartialEq, Eq, Structural)]
pub enum WhichSide {
    /// No fingerprint recorded yet — entry was never synced through dotling.
    Unknown,
    /// Neither side has changed since the last sync.
    Neither,
    /// Only the repo source file changed.
    RepoOnly,
    /// Only the actual (local) target file changed.
    ActualOnly,
    /// Both the repo source and the actual target changed.
    Both,
}

/// String order: by code points, a proper prefix first.
pub open spec fn lex_lt(a: Seq<char>, b: Seq<char>) -> bool
    decreases a.len(),
{
    if a.len() == 0 {
        b.len() > 0
    } else if b.len() == 0 {
        false
    } else if a[0] < b[0] {
        true
    } else if a[0] > b[0] {
        false
    } else {
        lex_lt(a.drop_first(), b.drop_first())
    }
}

pub proof fn lemma_lex_total(a: Seq<char>, b: Seq<char>)
    ensures
        lex_lt(a, b) || lex_lt(b, a) || a == b,
        !(lex_lt(a, b) && lex_lt(b, a)),
        !lex_lt(a, a),
    decreases a.len(),
{
    if a.len() > 0 {
        lemma_lex_total(a.drop_first(), a.drop_first());
    }
    if a.len() > 0 && b.len() > 0 {
        lemma_lex_total(a.drop_first(), b.drop_first());
        if a[0] == b[0] && a.drop_first() == b.drop_first() {
            assert(a =~= b) by {
                assert forall|k: int| 0 <= k < a.len() implies a[k] == b[k] by {
                    if k > 0 {
                        assert(a[k] == a.drop_first()[k - 1]);
                        assert(b[k] == b.drop_first()[k - 1]);
                    }
                }
            }
        }
    } else if a.len() == 0 && b.len() == 0 {
        assert(a =~= b);
    }
}

pub proof fn lemma_lex_trans(a: Seq<char>, b: Seq<char>, c: Seq<char>)
    requires
        lex_lt(a, b),
        lex_lt(b, c),
    ensures
        lex_lt(a, c),
    decreases a.len(),
{
    if a.len() > 0 && b.len() > 0 && c.len() > 0 {
        if a[0] == b[0] && b[0] == c[0] {
            lemma_lex_trans(a.drop_first(), b.drop_first(), c.drop_first());
        }
    }
}

/// Keys in strictly increasing order.
pub open spec fn sorted(rs: Records) -> bool {
    forall|i: int, j: int| 0 <= i < j < rs.len() ==> lex_lt(rs[i].0, rs[j].0)
}

/// The first index whose key is not below `key`.
pub open spec fn lower_bound(rs: Records, key: Seq<char>, i: int) -> int
    decreases rs.len() - i,
{
    if i < 0 || i >= rs.len() {
        rs.len() as int
    } else if !lex_lt(rs[i].0, key) {
        i
    } else {
        lower_bound(rs, key, i + 1)
    }
}

/// The records with `key` set to `fp`: replaced where the key is, inserted
/// in key order where it is not.
pub open spec fn insert_spec(rs: Records, key: Seq<char>, fp: FpView) -> Records {
    let p = lower_bound(rs, key, 0);
    if p < rs.len() && rs[p].0 == key {
        rs.update(p, (key, fp))
    } else {
        rs.insert(p, (key, fp))
    }
}

/// The fingerprint recorded for `key`.
pub open spec fn lookup_spec(rs: Records, key: Seq<char>) -> Option<FpView> {
    let p = lower_bound(rs, key, 0);
    if p < rs.len() && rs[p].0 == key {
        Some(rs[p].1)
    } else {
        None
    }
}

pub proof fn lemma_lower_bound(rs: Records, key: Seq<char>, i: int)
    requires
        0 <= i <= rs.len(),
    ensures
        i <= lower_bound(rs, key, i) <= rs.len(),
        forall|k: int| i <= k < lower_bound(rs, key, i) ==> lex_lt(rs[k].0, key),
        lower_bound(rs, key, i) < rs.len() ==> !lex_lt(rs[lower_bound(rs, key, i)].0, key),
    decreases rs.len() - i,
{
    if i < rs.len() && lex_lt(rs[i].0, key) {
        lemma_lower_bound(rs, key, i + 1);
    }
}

/// Inserting keeps the keys sorted, and the key is then found with its
/// fingerprint while the other keys keep theirs.
pub proof fn lemma_insert(rs: Records, key: Seq<char>, fp: FpView)
    requires
        sorted(rs),
    ensures
        sorted(insert_spec(rs, key, fp)),
        lookup_spec(insert_spec(rs, key, fp), key) == Some(fp),
        forall|k: Seq<char>| k != key ==> lookup_spec(insert_spec(rs, key, fp), k) == lookup_spec(rs, k),
{
    lemma_lower_bound(rs, key, 0);
    let p = lower_bound(rs, key, 0);
    let r = insert_spec(rs, key, fp);
    if p < rs.len() && rs[p].0 == key {
        assert forall|i: int, j: int| 0 <= i < j < r.len() implies lex_lt(r[i].0, r[j].0) by {
            assert(r[i].0 == rs[i].0 && r[j].0 == rs[j].0);
        }
    } else {
        if p < rs.len() {
            lemma_lex_total(rs[p].0, key);
        }
        assert forall|i: int, j: int| 0 <= i < j < r.len() implies lex_lt(r[i].0, r[j].0) by {
            if j < p {
                assert(r[i] == rs[i] && r[j] == rs[j]);
            } else if j == p {
                assert(r[i] == rs[i]);
            } else if i == p {
                assert(r[j] == rs[j - 1]);
                if j - 1 > p {
                    lemma_lex_trans(key, rs[p].0, rs[j - 1].0);
                }
            } else if i < p {
                assert(r[i] == rs[i] && r[j] == rs[j - 1]);
            } else {
                assert(r[i] == rs[i - 1] && r[j] == rs[j - 1]);
            }
        }
    }
    lemma_lookup_sorted(r, key);
    assert(r[p] == (key, fp));
    assert(r[p].0 == key);
    assert forall|k: Seq<char>| k != key implies lookup_spec(r, k) == lookup_spec(rs, k) by {
        lemma_lookup_sorted(r, k);
        lemma_lookup_sorted(rs, k);
        lemma_lower_bound(rs, k, 0);
        lemma_lower_bound(r, k, 0);
        lemma_lex_total(k, key);
        if p < rs.len() && rs[p].0 == key {
            assert forall|i: int| 0 <= i < rs.len() implies (r[i].0 == k <==> rs[i].0 == k) by {
                if i == p {
                } else {
                    assert(r[i] == rs[i]);
                }
            }
            if lookup_spec(rs, k) is Some {
                let q = lower_bound(rs, k, 0);
                assert(r[q].0 == k);
                assert(r[q] == rs[q]);
            }
        } else {
            if lookup_spec(rs, k) is Some {
                let q = lower_bound(rs, k, 0);
                if q < p {
                    assert(r[q] == rs[q]);
                } else {
                    assert(r[q + 1] == rs[q]);
                }
            }
            if lookup_spec(r, k) is Some {
                let q = lower_bound(r, k, 0);
                if q < p {
                    assert(r[q] == rs[q]);
                } else if q > p {
                    assert(r[q] == rs[q - 1]);
                }
            }
        }
    }
}

/// In sorted records, a key is found exactly when some record has it.
pub proof fn lemma_lookup_sorted(rs: Records, key: Seq<char>)
    requires
        sorted(rs),
    ensures
        (lookup_spec(rs, key) is Some) == (exists|i: int| 0 <= i < rs.len() && rs[i].0 == key),
        forall|i: int| 0 <= i < rs.len() && rs[i].0 == key ==> lookup_spec(rs, key) == Some(rs[i].1),
{
    lemma_lower_bound(rs, key, 0);
    let p = lower_bound(rs, key, 0);
    assert forall|i: int| 0 <= i < rs.len() && rs[i].0 == key implies lookup_spec(rs, key) == Some(rs[i].1) by {
        lemma_lex_total(rs[i].0, key);
        if i < p {
        } else if i > p {
            lemma_lex_total(rs[p].0, key);
            if rs[p].0 != key {
                lemma_lex_total(key, rs[p].0);
                lemma_lex_trans(key, rs[p].0, rs[i].0);
            }
        }
    }
}

} // verus!

verus! {

/// Lexicographic order on character slices.
pub fn lex_less(a: &[char], b: &[char]) -> (r: bool)
    ensures
        r == lex_lt(a@, b@),
{
    let mut i: usize = 0;
    assert(a@.skip(0) =~= a@);
    assert(b@.skip(0) =~= b@);
    while i < a.len() && i < b.len()
        invariant
            i <= a@.len(),
            i <= b@.len(),
            lex_lt(a@, b@) == lex_lt(a@.skip(i as int), b@.skip(i as int)),
        decreases a@.len() - i,
    {
        let ghost sa = a@.skip(i as int);
        let ghost sb = b@.skip(i as int);
        assert(sa[0] == a@[i as int]);
        assert(sb[0] == b@[i as int]);
        if a[i] < b[i] {
            return true;
        }
        if a[i] > b[i] {
            return false;
        }
        assert(sa.drop_first() == a@.skip(i + 1));
        assert(sb.drop_first() == b@.skip(i + 1));
        i += 1;
    }
    i < b.len()
}

fn copy_fp(f: &EntryFingerprint) -> (r: EntryFingerprint)
    ensures
        fp_view(r) == fp_view(*f),
{
    EntryFingerprint {
        enc_hash: f.enc_hash.clone(),
        target_hash: f.target_hash.clone(),
        source_hash: f.source_hash.clone(),
    }
}

/// Sets `key` in sorted records.
fn insert_record(records: &mut Vec<(String, EntryFingerprint)>, key: &str, fp: EntryFingerprint)
    requires
        sorted(records_of(old(records)@)),
    ensures
        records_of(final(records)@) == insert_spec(records_of(old(records)@), key@, fp_view(fp)),
        sorted(records_of(final(records)@)),
{
    let ghost rs = records_of(records@);
    proof {
        lemma_lower_bound(rs, key@, 0);
        lemma_insert(rs, key@, fp_view(fp));
    }
    let kc = chars_of(key);
    let mut i: usize = 0;
    while i < records.len()
        invariant
            i <= records@.len(),
            rs == records_of(records@),
            lower_bound(rs, key@, 0) == lower_bound(rs, key@, i as int),
            kc@ == key@,
        ensures
            i <= records@.len(),
            i < records@.len() ==> !lex_lt(rs[i as int].0, key@),
            lower_bound(rs, key@, 0) == lower_bound(rs, key@, i as int),
        decreases records@.len() - i,
    {
        let rk = chars_of(records[i].0.as_str());
        assert(rs[i as int].0 == rk@);
        if !lex_less(&rk, &kc) {
            break;
        }
        i += 1;
    }
    let ghost p = lower_bound(rs, key@, 0);
    assert(p == i);
    let entry = (key.to_string(), fp);
    if i < records.len() && str_eq(records[i].0.as_str(), key) {
        records.set(i, entry);
        assert(records_of(records@) =~= rs.update(i as int, (key@, fp_view(fp))));
    } else {
        records.insert(i, entry);
        assert(records_of(records@) =~= rs.insert(i as int, (key@, fp_view(fp))));
    }
}

/// The fingerprint recorded for `key`.
fn find_record(records: &Vec<(String, EntryFingerprint)>, key: &str) -> (r: Option<usize>)
    ensures
        match r {
            Some(i) => i < records@.len() && lookup_spec(records_of(records@), key@) == Some(
                records_of(records@)[i as int].1,
            ),
            None => lookup_spec(records_of(records@), key@) is None,
        },
{
    let ghost rs = records_of(records@);
    proof {
        lemma_lower_bound(rs, key@, 0);
    }
    let kc = chars_of(key);
    let mut i: usize = 0;
    while i < records.len()
        invariant
            i <= records@.len(),
            rs == records_of(records@),
            lower_bound(rs, key@, 0) == lower_bound(rs, key@, i as int),
            kc@ == key@,
        ensures
            i <= records@.len(),
            i < records@.len() ==> !lex_lt(rs[i as int].0, key@),
            lower_bound(rs, key@, 0) == lower_bound(rs, key@, i as int),
        decreases records@.len() - i,
    {
        let rk = chars_of(records[i].0.as_str());
        assert(rs[i as int].0 == rk@);
        if !lex_less(&rk, &kc) {
            break;
        }
        i += 1;
    }
    if i < records.len() && str_eq(records[i].0.as_str(), key) {
        Some(i)
    } else {
        None
    }
}

/// Whether an entry's files still hash as recorded: `None` without a
/// record; the current hashes are `None` where they could not be computed.
pub open spec fn in_sync_spec(
    rs: Records,
    source: Seq<char>,
    enc: Option<Seq<char>>,
    target: Option<Seq<char>>,
) -> Option<bool> {
    match lookup_spec(rs, source) {
        None => None,
        Some(fp) => Some(enc == Some(fp.0) && target == Some(fp.1)),
    }
}

/// Which side of a copy-mode entry changed since its record.
pub open spec fn who_changed_spec(
    rs: Records,
    source: Seq<char>,
    src_hash: Option<Seq<char>>,
    target: Option<Seq<char>>,
) -> WhichSide {
    match lookup_spec(rs, source) {
        None => WhichSide::Unknown,
        Some(fp) => {
            let source_same = src_hash == Some(fp.2);
            let target_same = target == Some(fp.1);
            if source_same && target_same {
                WhichSide::Neither
            } else if !source_same && target_same {
                WhichSide::RepoOnly
            } else if source_same && !target_same {
                WhichSide::ActualOnly
            } else {
                WhichSide::Both
            }
        },
    }
}

pub open spec fn opt_str(o: Option<&str>) -> Option<Seq<char>> {
    match o {
        Some(s) => Some(s@),
        None => None,
    }
}

fn matches_hash(current: Option<&str>, stored: &String) -> (r: bool)
    ensures
        r == (opt_str(current) == Some(stored@)),
{
    match current {
        Some(h) => str_eq(h, stored.as_str()),
        None => false,
    }
}

/// In-memory fingerprint store, persisted to `~/.dotling/fingerprints.toml`.
pub struct FingerprintStore {
    records: Vec<(String, EntryFingerprint)>,
    path: String,
    dirty: bool,
}

impl FingerprintStore {
    /// The records, in key order.
    pub closed spec fn records(&self) -> Records {
        records_of(self.records@)
    }

    pub closed spec fn store_path(&self) -> Seq<char> {
        self.path@
    }

    /// Whether records were added or changed since loading.
    pub closed spec fn is_dirty(&self) -> bool {
        self.dirty
    }

    /// What saving the store writes: nothing when no record was added or
    /// changed since it was loaded, else the store file of its records.
    pub open spec fn saved_text(&self) -> Option<Seq<char>> {
        if self.is_dirty() {
            Some(serialize_store_spec(self.records()))
        } else {
            None
        }
    }

    pub closed spec fn wf(&self) -> bool {
        sorted(records_of(self.records@))
    }

    /// The store kept at `path`, from the file's text, or empty when the
    /// file does not exist or cannot be read (`content` is `None`).
    pub fn new(path: &str, content: Option<&str>) -> (r: FingerprintStore)
        ensures
            r.wf(),
            r.records() == match content {
                Some(c) => parse_store_spec(c@),
                None => Seq::<(Seq<char>, FpView)>::empty(),
            },
            r.store_path() == path@,
            !r.is_dirty(),
            r.saved_text() is None,
    {
        let records = match content {
            Some(c) => parse_store(c),
            None => {
                let v: Vec<(String, EntryFingerprint)> = Vec::new();
                assert(records_of(v@) =~= Seq::<(Seq<char>, FpView)>::empty());
                v
            },
        };
        FingerprintStore { records, path: path.to_string(), dirty: false }
    }

    /// Check whether a fingerprint record exists for `source`.
    pub fn has_record(&self, source: &str) -> (r: bool)
        ensures
            r == (lookup_spec(self.records(), source@) is Some),
    {
        find_record(&self.records, source).is_some()
    }

    /// Store the hashes of an encrypted entry's `.enc` file and target,
    /// computed after a successful push or pull.
    pub fn record(&mut self, source: &str, enc_hash: &str, target_hash: &str)
        requires
            old(self).wf(),
        ensures
            final(self).wf(),
            final(self).records() == insert_spec(
                old(self).records(),
                source@,
                (enc_hash@, target_hash@, Seq::empty()),
            ),
            final(self).store_path() == old(self).store_path(),
            final(self).is_dirty(),
    {
        let fp = EntryFingerprint {
            enc_hash: enc_hash.to_string(),
            target_hash: target_hash.to_string(),
            source_hash: String::new(),
        };
        insert_record(&mut self.records, source, fp);
        self.dirty = true;
    }

    /// Store the hashes of a copy-mode entry's repo source and target.
    pub fn record_plain(&mut self, source: &str, source_hash: &str, target_hash: &str)
        requires
            old(self).wf(),
        ensures
            final(self).wf(),
            final(self).records() == insert_spec(
                old(self).records(),
                source@,
                (Seq::empty(), target_hash@, source_hash@),
            ),
            final(self).store_path() == old(self).store_path(),
            final(self).is_dirty(),
    {
        let fp = EntryFingerprint {
            enc_hash: String::new(),
            target_hash: target_hash.to_string(),
            source_hash: source_hash.to_string(),
        };
        insert_record(&mut self.records, source, fp);
        self.dirty = true;
    }

    /// Check whether `source` is still in sync, given the current hashes of
    /// its `.enc` file and target (`None` where they could not be computed).
    ///
    /// Returns `None` without a record, `Some(true)` when both hashes match.
    pub fn is_in_sync(&self, source: &str, enc_hash: Option<&str>, target_hash: Option<&str>) -> (r: Option<bool>)
        ensures
            r == in_sync_spec(self.records(), source@, opt_str(enc_hash), opt_str(target_hash)),
    {
        match find_record(&self.records, source) {
            None => None,
            Some(i) => {
                let stored = &self.records[i].1;
                let enc_ok = matches_hash(enc_hash, &stored.enc_hash);
                let target_ok = matches_hash(target_hash, &stored.target_hash);
                Some(enc_ok && target_ok)
            },
        }
    }

    /// Determine which side(s) of a copy-mode entry changed since the last
    /// sync, given the current hashes of its repo source and target.
    pub fn who_changed(&self, source: &str, source_hash: Option<&str>, target_hash: Option<&str>) -> (r: WhichSide)
        ensures
            r == who_changed_spec(self.records(), source@, opt_str(source_hash), opt_str(target_hash)),
    {
        match find_record(&self.records, source) {
            None => WhichSide::Unknown,
            Some(i) => {
                let stored = &self.records[i].1;
                let source_same = matches_hash(source_hash, &stored.source_hash);
                let target_same = matches_hash(target_hash, &stored.target_hash);
                if source_same && target_same {
                    WhichSide::Neither
                } else if !source_same && target_same {
                    WhichSide::RepoOnly
                } else if source_same && !target_same {
                    WhichSide::ActualOnly
                } else {
                    WhichSide::Both
                }
            },
        }
    }

    /// The text to write to the store's path, if any records were added or
    /// changed.
    pub fn save(&self) -> (r: Option<String>)
        requires
            self.wf(),
        ensures
            match r {
                Some(t) => self.is_dirty() && t@ == serialize_store_spec(self.records()),
                None => !self.is_dirty(),
            },
            match r {
                Some(t) => self.saved_text() == Some(t@),
                None => self.saved_text() is None,
            },
    {
        if !self.dirty {
            return None;
        }
        Some(serialize_store(&self.records))
    }

    /// The records of a valid store are in key order, so the laws on sorted
    /// records hold of them.
    pub proof fn lemma_wf_sorted(&self)
        requires
            self.wf(),
        ensures
            sorted(self.records()),
    {
    }

    /// The path the store is kept at.
    pub fn path(&self) -> (r: &str)
        ensures
            r@ == self.store_path(),
    {
        self.path.as_str()
    }
}

// ── Laws of the store ─────────────────────────────────────────────

/// Right after recording an entry's hashes, the entry has a record and is in
/// sync with those same hashes.
pub proof fn law_record_then_in_sync(rs: Records, source: Seq<char>, enc: Seq<char>, target: Seq<char>)
    requires
        sorted(rs),
    ensures
        lookup_spec(insert_spec(rs, source, (enc, target, Seq::empty())), source) is Some,
        in_sync_spec(insert_spec(rs, source, (enc, target, Seq::empty())), source, Some(enc), Some(target))
            == Some(true),
{
    lemma_insert(rs, source, (enc, target, Seq::empty()));
}

/// After recording a copy-mode entry's hashes, the side whose current hash
/// differs from the recorded one is reported as changed, and no other.
pub proof fn law_record_plain_who_changed(
    rs: Records,
    source: Seq<char>,
    src_hash: Seq<char>,
    target: Seq<char>,
    now_src: Seq<char>,
    now_target: Seq<char>,
)
    requires
        sorted(rs),
    ensures
        who_changed_spec(
            insert_spec(rs, source, (Seq::empty(), target, src_hash)),
            source,
            Some(now_src),
            Some(now_target),
        ) == if now_src == src_hash && now_target == target {
            WhichSide::Neither
        } else if now_target == target {
            WhichSide::RepoOnly
        } else if now_src == src_hash {
            WhichSide::ActualOnly
        } else {
            WhichSide::Both
        },
{
    lemma_insert(rs, source, (Seq::empty(), target, src_hash));
}

/// Recording one entry leaves the others' records alone.
pub proof fn law_record_keeps_others(rs: Records, source: Seq<char>, fp: FpView, other: Seq<char>)
    requires
        sorted(rs),
        other != source,
    ensures
        lookup_spec(insert_spec(rs, source, fp), other) == lookup_spec(rs, other),
{
    lemma_insert(rs, source, fp);
}

} // verus!

verus! {

// ── Store file ────────────────────────────────────────────────────

/// The reader's state: the records so far and the fields of the open table.
pub struct FpParse {
    pub rs: Records,
    pub src: Option<Seq<char>>,
    pub enc: Option<Seq<char>>,
    pub srch: Option<Seq<char>>,
    pub tgt: Option<Seq<char>>,
}

pub open spec fn or_empty(o: Option<Seq<char>>) -> Seq<char> {
    match o {
        Some(s) => s,
        None => Seq::empty(),
    }
}

/// The records with the open table added, when it has a source and a target hash.
pub open spec fn fp_flush(st: FpParse) -> Records {
    match (st.src, st.tgt) {
        (Some(s), Some(t)) => insert_spec(st.rs, s, (or_empty(st.enc), t, or_empty(st.srch))),
        _ => st.rs,
    }
}

/// One raw line read.
pub open spec fn fp_step(st: FpParse, raw: Seq<char>) -> FpParse {
    let line = clean_line(raw);
    if line == "[[entries]]"@ {
        FpParse { rs: fp_flush(st), src: None, enc: None, srch: None, tgt: None }
    } else {
        match split_once(line, '=') {
            Some((k, v)) => {
                let key = trim(k);
                let val = trim_char(trim(v), '"');
                if key == "source"@ {
                    FpParse { src: Some(val), ..st }
                } else if key == "enc_hash"@ {
                    FpParse { enc: Some(val), ..st }
                } else if key == "source_hash"@ {
                    FpParse { srch: Some(val), ..st }
                } else if key == "target_hash"@ {
                    FpParse { tgt: Some(val), ..st }
                } else {
                    st
                }
            },
            None => st,
        }
    }
}

pub open spec fn fp_run(st: FpParse, ls: Seq<Seq<char>>) -> FpParse
    decreases ls.len(),
{
    if ls.len() == 0 {
        st
    } else {
        fp_step(fp_run(st, ls.drop_last()), ls.last())
    }
}

pub open spec fn fp_initial() -> FpParse {
    FpParse { rs: Seq::empty(), src: None, enc: None, srch: None, tgt: None }
}

/// The records of a store file.
pub open spec fn parse_store_spec(input: Seq<char>) -> Records {
    fp_flush(fp_run(fp_initial(), lines(input)))
}

/// Backslashes and double quotes escaped.
pub open spec fn fp_escape(s: Seq<char>) -> Seq<char>
    decreases s.len(),
{
    if s.len() == 0 {
        Seq::empty()
    } else {
        fp_escape(s.drop_last()) + if s.last() == '\\' {
            seq!['\\', '\\']
        } else if s.last() == '"' {
            seq!['\\', '"']
        } else {
            seq![s.last()]
        }
    }
}

pub open spec fn header_fp() -> Seq<char> {
    "# dotling sync fingerprints — managed by dotling"@
}

/// The lines of one record.
pub open spec fn record_lines(key: Seq<char>, fp: FpView) -> Seq<Seq<char>> {
    seq!["[[entries]]"@, "source      = \""@ + fp_escape(key) + "\""@] + (if fp.0.len() > 0 {
        seq!["enc_hash    = \""@ + fp.0 + "\""@]
    } else {
        Seq::empty()
    }) + (if fp.2.len() > 0 {
        seq!["source_hash = \""@ + fp.2 + "\""@]
    } else {
        Seq::empty()
    }) + seq!["target_hash = \""@ + fp.1 + "\""@, Seq::empty()]
}

pub open spec fn records_lines(rs: Records) -> Seq<Seq<char>>
    decreases rs.len(),
{
    if rs.len() == 0 {
        Seq::empty()
    } else {
        records_lines(rs.drop_last()) + record_lines(rs.last().0, rs.last().1)
    }
}

/// Records in key order: each set in turn into sorted records.
pub open spec fn sort_records(rs: Records) -> Records
    decreases rs.len(),
{
    if rs.len() == 0 {
        Seq::empty()
    } else {
        insert_spec(sort_records(rs.drop_last()), rs.last().0, rs.last().1)
    }
}

pub proof fn lemma_sort_records(rs: Records)
    ensures
        sorted(sort_records(rs)),
    decreases rs.len(),
{
    if rs.len() > 0 {
        lemma_sort_records(rs.drop_last());
        lemma_insert(sort_records(rs.drop_last()), rs.last().0, rs.last().1);
    }
}

/// The store file of some records, written in key order.
pub open spec fn serialize_store_spec(rs: Records) -> Seq<char> {
    join_lines(seq![header_fp(), Seq::empty()] + records_lines(sort_records(rs)))
}

fn fp_escape_vec(s: &[char]) -> (r: Vec<char>)
    ensures
        r@ == fp_escape(s@),
{
    let mut r: Vec<char> = Vec::new();
    let mut i: usize = 0;
    while i < s.len()
        invariant
            i <= s@.len(),
            r@ == fp_escape(s@.take(i as int)),
        decreases s@.len() - i,
    {
        let c = s[i];
        let ghost r0 = r@;
        if c == '\\' {
            r.push('\\');
            r.push('\\');
        } else if c == '"' {
            r.push('\\');
            r.push('"');
        } else {
            r.push(c);
        }
        proof {
            assert(s@.take(i + 1).drop_last() == s@.take(i as int));
            assert(s@.take(i + 1).last() == c);
        }
        i += 1;
    }
    assert(s@.take(s@.len() as int) == s@);
    r
}

fn push_line_str(out: &mut Vec<char>, prefix: &str, v: &[char])
    ensures
        final(out)@ == old(out)@ + (prefix@ + v@ + "\""@) + seq!['\n'],
{
    push_str(out, prefix);
    push_all(out, v);
    push_str(out, "\"");
    out.push('\n');
    assert(out@ =~= old(out)@ + (prefix@ + v@ + "\""@) + seq!['\n']);
}

/// Append one record's lines.
fn push_record(out: &mut Vec<char>, key: &str, fp: &EntryFingerprint)
    ensures
        final(out)@ == old(out)@ + join_lines(record_lines(key@, fp_view(*fp))),
{
    let ghost o0 = out@;
    let ghost mut ls: Seq<Seq<char>> = Seq::empty();
    let kc = chars_of(key);
    let esc = fp_escape_vec(&kc);
    push_str(out, "[[entries]]");
    out.push('\n');
    proof {
        assert(ls.push("[[entries]]"@).drop_last() == ls);
        assert(join_lines(ls) == Seq::<char>::empty());
        ls = ls.push("[[entries]]"@);
        assert(out@ =~= o0 + join_lines(ls));
    }
    push_line_str(out, "source      = \"", &esc);
    proof {
        let l = "source      = \""@ + esc@ + "\""@;
        assert(ls.push(l).drop_last() == ls);
        ls = ls.push(l);
        assert(out@ =~= o0 + join_lines(ls));
    }
    let e = chars_of(fp.enc_hash.as_str());
    if e.len() > 0 {
        push_line_str(out, "enc_hash    = \"", &e);
        proof {
            let l = "enc_hash    = \""@ + e@ + "\""@;
            assert(ls.push(l).drop_last() == ls);
            ls = ls.push(l);
            assert(out@ =~= o0 + join_lines(ls));
        }
    }
    let sh = chars_of(fp.source_hash.as_str());
    if sh.len() > 0 {
        push_line_str(out, "source_hash = \"", &sh);
        proof {
            let l = "source_hash = \""@ + sh@ + "\""@;
            assert(ls.push(l).drop_last() == ls);
            ls = ls.push(l);
            assert(out@ =~= o0 + join_lines(ls));
        }
    }
    let t = chars_of(fp.target_hash.as_str());
    push_line_str(out, "target_hash = \"", &t);
    proof {
        let l = "target_hash = \""@ + t@ + "\""@;
        assert(ls.push(l).drop_last() == ls);
        ls = ls.push(l);
        assert(out@ =~= o0 + join_lines(ls));
    }
    out.push('\n');
    proof {
        assert(ls.push(Seq::empty()).drop_last() == ls);
        ls = ls.push(Seq::empty());
        assert(out@ =~= o0 + join_lines(ls));
        assert(ls =~= record_lines(key@, fp_view(*fp)));
    }
}

/// Serialize records to the store file, in key order.
pub fn serialize_store(records: &Vec<(String, EntryFingerprint)>) -> (r: String)
    ensures
        r@ == serialize_store_spec(records_of(records@)),
{
    let ghost rs = records_of(records@);
    let mut sorted_v: Vec<(String, EntryFingerprint)> = Vec::new();
    assert(records_of(sorted_v@) =~= Seq::<(Seq<char>, FpView)>::empty());
    let mut i: usize = 0;
    while i < records.len()
        invariant
            i <= records@.len(),
            rs == records_of(records@),
            records_of(sorted_v@) == sort_records(rs.take(i as int)),
        decreases records@.len() - i,
    {
        proof {
            lemma_sort_records(rs.take(i as int));
            assert(rs.take(i + 1).drop_last() == rs.take(i as int));
            assert(rs.take(i + 1).last() == rs[i as int]);
        }
        let fp = copy_fp(&records[i].1);
        insert_record(&mut sorted_v, records[i].0.as_str(), fp);
        i += 1;
    }
    assert(rs.take(rs.len() as int) == rs);
    let ghost srt = sort_records(rs);
    let mut out: Vec<char> = Vec::new();
    push_str(&mut out, "# dotling sync fingerprints — managed by dotling");
    out.push('\n');
    out.push('\n');
    let ghost head = seq![header_fp(), Seq::<char>::empty()];
    proof {
        let h1 = seq![header_fp()];
        assert(h1.drop_last() == Seq::<Seq<char>>::empty());
        assert(join_lines(Seq::<Seq<char>>::empty()) == Seq::<char>::empty());
        assert(join_lines(h1) =~= header_fp() + seq!['\n']);
        assert(head.drop_last() == h1);
        assert(join_lines(head) =~= out@);
    }
    let mut j: usize = 0;
    while j < sorted_v.len()
        invariant
            j <= sorted_v@.len(),
            srt == records_of(sorted_v@),
            out@ == join_lines(head + records_lines(srt.take(j as int))),
        decreases sorted_v@.len() - j,
    {
        let (key, fp) = &sorted_v[j];
        let ghost before = head + records_lines(srt.take(j as int));
        push_record(&mut out, key.as_str(), fp);
        proof {
            let (k, f) = srt[j as int];
            assert(k == key@ && f == fp_view(*fp));
            lemma_join_lines_append(before, record_lines(k, f));
            assert(srt.take(j + 1).drop_last() == srt.take(j as int));
            assert(srt.take(j + 1).last() == srt[j as int]);
            assert(head + records_lines(srt.take(j + 1)) =~= before + record_lines(k, f));
        }
        j += 1;
    }
    assert(srt.take(srt.len() as int) == srt);
    string_of(&out)
}

/// Parse the store file.
pub fn parse_store(input: &str) -> (r: Vec<(String, EntryFingerprint)>)
    ensures
        records_of(r@) == parse_store_spec(input@),
        sorted(records_of(r@)),
{
    let ls = lines_vec(&chars_of(input));
    let ghost lv = seqs_of(ls@);
    let mut rs: Vec<(String, EntryFingerprint)> = Vec::new();
    let mut src: Option<String> = None;
    let mut enc: Option<String> = None;
    let mut srch: Option<String> = None;
    let mut tgt: Option<String> = None;
    assert(records_of(rs@) =~= Seq::<(Seq<char>, FpView)>::empty());
    assert(lv.take(0) == Seq::<Seq<char>>::empty());
    let mut k: usize = 0;
    while k < ls.len()
        invariant
            k <= ls@.len(),
            lv == seqs_of(ls@),
            lv == lines(input@),
            sorted(records_of(rs@)),
            fp_run(fp_initial(), lv.take(k as int)) == (FpParse {
                rs: records_of(rs@),
                src: opt_s(src),
                enc: opt_s(enc),
                srch: opt_s(srch),
                tgt: opt_s(tgt),
            }),
        decreases ls@.len() - k,
    {
        proof {
            assert(lv.take(k + 1).drop_last() == lv.take(k as int));
            assert(lv.take(k + 1).last() == ls@[k as int]@);
        }
        let line = clean_line_vec(&ls[k]);
        if same_str(&line, "[[entries]]") {
            flush_record(&mut rs, &src, &enc, &srch, &tgt);
            src = None;
            enc = None;
            srch = None;
            tgt = None;
        } else {
            match split_once_vec(&line, '=') {
                Some((kp, vp)) => {
                    let key = trim_vec(&kp);
                    let t = trim_vec(&vp);
                    let val = trim_char_vec(&t, '"');
                    if same_str(&key, "source") {
                        src = Some(string_of(&val));
                    } else if same_str(&key, "enc_hash") {
                        enc = Some(string_of(&val));
                    } else if same_str(&key, "source_hash") {
                        srch = Some(string_of(&val));
                    } else if same_str(&key, "target_hash") {
                        tgt = Some(string_of(&val));
                    }
                },
                None => {},
            }
        }
        k += 1;
    }
    assert(lv.take(lv.len() as int) == lv);
    flush_record(&mut rs, &src, &enc, &srch, &tgt);
    rs
}

pub open spec fn opt_s(o: Option<String>) -> Option<Seq<char>> {
    match o {
        Some(s) => Some(s@),
        None => None,
    }
}

fn string_or_empty(o: &Option<String>) -> (r: String)
    ensures
        r@ == or_empty(opt_s(*o)),
{
    match o {
        Some(s) => s.clone(),
        None => String::new(),
    }
}

fn flush_record(
    rs: &mut Vec<(String, EntryFingerprint)>,
    src: &Option<String>,
    enc: &Option<String>,
    srch: &Option<String>,
    tgt: &Option<String>,
)
    requires
        sorted(records_of(old(rs)@)),
    ensures
        sorted(records_of(final(rs)@)),
        records_of(final(rs)@) == fp_flush(
            FpParse {
                rs: records_of(old(rs)@),
                src: opt_s(*src),
                enc: opt_s(*enc),
                srch: opt_s(*srch),
                tgt: opt_s(*tgt),
            },
        ),
{
    match (src, tgt) {
        (Some(s), Some(t)) => {
            let fp = EntryFingerprint {
                enc_hash: string_or_empty(enc),
                target_hash: t.clone(),
                source_hash: string_or_empty(srch),
            };
            insert_record(rs, s.as_str(), fp);
        },
        _ => {},
    }
}


// ── Reading back a written store ──────────────────────────────────

/// `n` spaces.
pub open spec fn spaces(n: nat) -> Seq<char> {
    Seq::new(n, |i: int| ' ')
}

/// Text that the store writes and reads back as it is: no backslash, quote,
/// `#` or newline.
pub open spec fn store_text(x: Seq<char>) -> bool {
    forall|k: int| 0 <= k < x.len() ==> x[k] != '\\' && x[k] != '"' && x[k] != '#' && x[k] != '\n'
}

/// A record whose key and hashes the store reads back as written.
pub open spec fn record_storable(r: (Seq<char>, FpView)) -> bool {
    store_text(r.0) && store_text(r.1.0) && store_text(r.1.1) && store_text(r.1.2)
}

/// Records whose keys and hashes the store reads back as written.
pub open spec fn records_storable(rs: Records) -> bool {
    forall|i: int| 0 <= i < rs.len() ==> record_storable(#[trigger] rs[i])
}

proof fn lemma_fp_escape_plain(s: Seq<char>)
    requires
        store_text(s),
    ensures
        fp_escape(s) == s,
    decreases s.len(),
{
    if s.len() > 0 {
        lemma_fp_escape_plain(s.drop_last());
        assert(s.drop_last().push(s.last()) =~= s);
    }
}

proof fn lemma_trim_char_quoted(x: Seq<char>)
    requires
        store_text(x),
    ensures
        trim_char(seq!['"'] + x + seq!['"'], '"') == x,
{
    let s = seq!['"'] + x + seq!['"'];
    assert(s.drop_first() =~= x + seq!['"']);
    let t = x + seq!['"'];
    assert(s[0] == '"');
    assert(trim_char(s, '"') == trim_char(t, '"'));
    if x.len() == 0 {
        assert(t =~= seq!['"']);
        assert(t.drop_first() =~= Seq::<char>::empty());
        assert(trim_char(t, '"') == trim_char(t.drop_first(), '"'));
        assert(x =~= Seq::<char>::empty());
    } else {
        assert(t[0] == x[0]);
        assert(x[0] != '"');
        assert(t.last() == '"');
        assert(t.drop_last() =~= x);
        assert(trim_char(t, '"') == trim_char(x, '"'));
        assert(x.last() != '"') by {
            assert(x.last() == x[x.len() - 1]);
        }
        assert(trim_char(x, '"') == x);
    }
}

/// A `word  = "x"` line of the store file: what the reader finds in it.
proof fn lemma_fp_line(word: Seq<char>, pad: nat, x: Seq<char>)
    requires
        crate::config::is_word(word),
        store_text(x),
    ensures
        ({
            let l = word + spaces(pad) + seq!['=', ' ', '"'] + x + seq!['"'];
            &&& clean_line(l) == l
            &&& l != "[[entries]]"@
            &&& split_once(l, '=') == Some((word + spaces(pad), seq![' ', '"'] + x + seq!['"']))
            &&& trim(word + spaces(pad)) == word
            &&& trim_char(trim(seq![' ', '"'] + x + seq!['"']), '"') == x
            &&& good_line(l)
        }),
{
    let n = word + spaces(pad);
    let l = n + seq!['=', ' ', '"'] + x + seq!['"'];
    let m = n.len() as int;
    assert forall|k: int| 0 <= k < word.len() implies word[k] != '=' && word[k] != '#' && !is_ws(
        word[k],
    ) && word[k] != '\n' && word[k] != '[' by {
        assert('a' <= word[k] <= 'z' || word[k] == '_');
    }
    assert forall|k: int| 0 <= k < l.len() implies l[k] != '#' && l[k] != '\n' by {
        if k < word.len() {
            assert(l[k] == word[k]);
        } else if k < m {
            assert(l[k] == ' ');
        } else if m + 3 <= k < m + 3 + x.len() {
            assert(l[k] == x[k - m - 3]);
        }
    }
    lemma_index_of_none(l, '#');
    assert(before_char(l, '#') == l);
    assert(l[0] == word[0]);
    assert(l.last() == '"');
    lemma_trim_noop(l);
    assert(l != "[[entries]]"@) by {
        reveal_strlit("[[entries]]");
        assert("[[entries]]"@[0] == '[');
    }
    assert forall|k: int| 0 <= k < m implies l[k] != '=' by {
        if k < word.len() {
            assert(l[k] == word[k]);
        } else {
            assert(l[k] == ' ');
        }
    }
    assert(l[m] == '=');
    lemma_index_of_at(l, '=', m);
    assert(l.take(m) =~= n);
    assert(l.skip(m + 1) =~= seq![' ', '"'] + x + seq!['"']);
    // the name
    assert forall|k: int| word.len() <= k < n.len() implies is_ws(n[k]) by {
        assert(n[k] == ' ');
    }
    crate::text::lemma_trim_end_take(n, word.len() as int);
    assert(n.take(word.len() as int) =~= word);
    assert(trim_start(n) == n) by {
        assert(n[0] == word[0]);
    }
    assert(trim_end(word) == word) by {
        assert(word.last() == word[word.len() - 1]);
    }
    // the value
    let v = seq![' ', '"'] + x + seq!['"'];
    assert(v[0] == ' ' && v[1] == '"' && v.last() == '"');
    lemma_trim_one_space(v);
    assert(v.drop_first() =~= seq!['"'] + x + seq!['"']);
    lemma_trim_char_quoted(x);
}

proof fn lemma_fp_blank(st: FpParse, l: Seq<char>)
    requires
        l.len() == 0 || l[0] == '#',
    ensures
        fp_step(st, l) == st,
{
    let b = before_char(l, '#');
    if l.len() > 0 {
        lemma_index_of_at(l, '#', 0);
        assert(b =~= Seq::<char>::empty());
    } else {
        lemma_index_of_none(l, '#');
    }
    assert(clean_line(l) =~= Seq::<char>::empty());
    assert(clean_line(l) != "[[entries]]"@) by {
        reveal_strlit("[[entries]]");
    }
    lemma_index_of_none(clean_line(l), '=');
}


proof fn lemma_fp_words()
    ensures
        "source      = \""@ == "source"@ + spaces(6) + seq!['=', ' ', '"'],
        "enc_hash    = \""@ == "enc_hash"@ + spaces(4) + seq!['=', ' ', '"'],
        "source_hash = \""@ == "source_hash"@ + spaces(1) + seq!['=', ' ', '"'],
        "target_hash = \""@ == "target_hash"@ + spaces(1) + seq!['=', ' ', '"'],
        "\""@ == seq!['"'],
        crate::config::is_word("source"@),
        crate::config::is_word("enc_hash"@),
        crate::config::is_word("source_hash"@),
        crate::config::is_word("target_hash"@),
        "enc_hash"@ != "source"@,
        "source_hash"@ != "source"@,
        "source_hash"@ != "enc_hash"@,
        "target_hash"@ != "source"@,
        "target_hash"@ != "enc_hash"@,
        "target_hash"@ != "source_hash"@,
        clean_line("[[entries]]"@) == "[[entries]]"@,
        good_line("[[entries]]"@),
        good_line(Seq::<char>::empty()),
{
    reveal_strlit("source      = \"");
    reveal_strlit("enc_hash    = \"");
    reveal_strlit("source_hash = \"");
    reveal_strlit("target_hash = \"");
    reveal_strlit("\"");
    reveal_strlit("source");
    reveal_strlit("enc_hash");
    reveal_strlit("source_hash");
    reveal_strlit("target_hash");
    reveal_strlit("[[entries]]");
    assert("source      = \""@ =~= "source"@ + spaces(6) + seq!['=', ' ', '"']);
    assert("enc_hash    = \""@ =~= "enc_hash"@ + spaces(4) + seq!['=', ' ', '"']);
    assert("source_hash = \""@ =~= "source_hash"@ + spaces(1) + seq!['=', ' ', '"']);
    assert("target_hash = \""@ =~= "target_hash"@ + spaces(1) + seq!['=', ' ', '"']);
    assert("\""@ =~= seq!['"']);
    assert("enc_hash"@.len() != "source"@.len());
    assert("source_hash"@.len() != "source"@.len());
    assert("source_hash"@.len() != "enc_hash"@.len());
    assert("target_hash"@.len() != "source"@.len());
    assert("target_hash"@.len() != "enc_hash"@.len());
    assert("target_hash"@[0] != "source_hash"@[0]);
    let e = "[[entries]]"@;
    assert forall|k: int| 0 <= k < e.len() implies e[k] != '#' && e[k] != '\n' by {}
    lemma_index_of_none(e, '#');
    lemma_trim_noop(e);
}

proof fn lemma_fp_run_append(st: FpParse, a: Seq<Seq<char>>, b: Seq<Seq<char>>)
    ensures
        fp_run(st, a + b) == fp_run(fp_run(st, a), b),
    decreases b.len(),
{
    if b.len() == 0 {
        assert(a + b =~= a);
    } else {
        lemma_fp_run_append(st, a, b.drop_last());
        assert((a + b).drop_last() =~= a + b.drop_last());
        assert((a + b).last() == b.last());
    }
}

proof fn lemma_fp_run_one(st: FpParse, l: Seq<char>)
    ensures
        fp_run(st, seq![l]) == fp_step(st, l),
{
    assert(seq![l].drop_last() =~= Seq::<Seq<char>>::empty());
    assert(fp_run(st, Seq::<Seq<char>>::empty()) == st);
    assert(seq![l].last() == l);
}

/// What reading one record's lines leaves: the earlier open table added,
/// and this record's fields open.
pub open spec fn open_record(st: FpParse, key: Seq<char>, fp: FpView) -> FpParse {
    FpParse {
        rs: fp_flush(st),
        src: Some(key),
        enc: if fp.0.len() > 0 {
            Some(fp.0)
        } else {
            None
        },
        srch: if fp.2.len() > 0 {
            Some(fp.2)
        } else {
            None
        },
        tgt: Some(fp.1),
    }
}

proof fn lemma_fp_record(st: FpParse, key: Seq<char>, fp: FpView)
    requires
        store_text(key),
        store_text(fp.0),
        store_text(fp.1),
        store_text(fp.2),
    ensures
        fp_run(st, record_lines(key, fp)) == open_record(st, key, fp),
        forall|i: int| 0 <= i < record_lines(key, fp).len() ==> good_line(#[trigger] record_lines(key, fp)[i]),
{
    lemma_fp_words();
    lemma_fp_escape_plain(key);
    lemma_fp_line("source"@, 6, key);
    lemma_fp_line("enc_hash"@, 4, fp.0);
    lemma_fp_line("source_hash"@, 1, fp.2);
    lemma_fp_line("target_hash"@, 1, fp.1);
    let ls = "source      = \""@ + fp_escape(key) + "\""@;
    let le = "enc_hash    = \""@ + fp.0 + "\""@;
    let lh = "source_hash = \""@ + fp.2 + "\""@;
    let lt = "target_hash = \""@ + fp.1 + "\""@;
    let head = seq!["[[entries]]"@, ls];
    let eo: Seq<Seq<char>> = if fp.0.len() > 0 { seq![le] } else { Seq::empty() };
    let ho: Seq<Seq<char>> = if fp.2.len() > 0 { seq![lh] } else { Seq::empty() };
    let tail = seq![lt, Seq::<char>::empty()];
    assert(record_lines(key, fp) == head + eo + ho + tail);
    // [[entries]]
    let s1 = FpParse { rs: fp_flush(st), src: None, enc: None, srch: None, tgt: None };
    lemma_fp_run_one(st, "[[entries]]"@);
    assert(fp_step(st, "[[entries]]"@) == s1);
    // source
    let s2 = FpParse { src: Some(key), ..s1 };
    assert(fp_step(s1, ls) == s2);
    assert(head == seq!["[[entries]]"@].push(ls));
    assert(seq!["[[entries]]"@].push(ls).drop_last() =~= seq!["[[entries]]"@]);
    assert(fp_run(st, head) == s2);
    // enc
    let s3 = FpParse { enc: if fp.0.len() > 0 { Some(fp.0) } else { None }, ..s2 };
    if fp.0.len() > 0 {
        assert(fp_step(s2, le) == s3);
        lemma_fp_run_one(s2, le);
    } else {
        assert(eo =~= Seq::<Seq<char>>::empty());
    }
    assert(fp_run(s2, eo) == s3);
    // source hash
    let s4 = FpParse { srch: if fp.2.len() > 0 { Some(fp.2) } else { None }, ..s3 };
    if fp.2.len() > 0 {
        assert(fp_step(s3, lh) == s4);
        lemma_fp_run_one(s3, lh);
    } else {
        assert(ho =~= Seq::<Seq<char>>::empty());
    }
    assert(fp_run(s3, ho) == s4);
    // target hash, blank
    let s5 = FpParse { tgt: Some(fp.1), ..s4 };
    assert(fp_step(s4, lt) == s5);
    lemma_fp_blank(s5, Seq::<char>::empty());
    assert(tail == seq![lt].push(Seq::<char>::empty()));
    assert(seq![lt].push(Seq::<char>::empty()).drop_last() =~= seq![lt]);
    lemma_fp_run_one(s4, lt);
    assert(fp_run(s4, tail) == s5);
    lemma_fp_run_append(st, head, eo);
    lemma_fp_run_append(st, head + eo, ho);
    lemma_fp_run_append(st, head + eo + ho, tail);
    assert(s5 == open_record(st, key, fp));
    assert forall|i: int| 0 <= i < record_lines(key, fp).len() implies good_line(
        #[trigger] record_lines(key, fp)[i],
    ) by {
        let r = record_lines(key, fp);
        if i < 2 {
            assert(r[i] == head[i]);
        } else if i < 2 + eo.len() {
            assert(r[i] == eo[i - 2]);
        } else if i < 2 + eo.len() + ho.len() {
            assert(r[i] == ho[i - 2 - eo.len()]);
        } else {
            assert(r[i] == tail[i - 2 - eo.len() - ho.len()]);
        }
    }
}


/// The reader's state after the lines of some records: all but the last
/// added, the last one open.
pub open spec fn after_records(rs: Records) -> FpParse
    decreases rs.len(),
{
    if rs.len() == 0 {
        fp_initial()
    } else {
        open_record(after_records(rs.drop_last()), rs.last().0, rs.last().1)
    }
}

proof fn lemma_storable_prefix(rs: Records)
    requires
        records_storable(rs),
        rs.len() > 0,
    ensures
        records_storable(rs.drop_last()),
        store_text(rs.last().0),
        store_text(rs.last().1.0),
        store_text(rs.last().1.1),
        store_text(rs.last().1.2),
{
    assert forall|i: int| 0 <= i < rs.drop_last().len() implies record_storable(#[trigger] rs.drop_last()[i]) by {
        assert(rs.drop_last()[i] == rs[i]);
    }
    assert(rs.last() == rs[rs.len() - 1]);
    assert(record_storable(rs[rs.len() - 1]));
}

proof fn lemma_records_run(rs: Records)
    requires
        records_storable(rs),
    ensures
        fp_run(fp_initial(), records_lines(rs)) == after_records(rs),
        fp_flush(after_records(rs)) == sort_records(rs),
        forall|i: int| 0 <= i < records_lines(rs).len() ==> good_line(#[trigger] records_lines(rs)[i]),
    decreases rs.len(),
{
    if rs.len() == 0 {
        assert(records_lines(rs) =~= Seq::<Seq<char>>::empty());
    } else {
        let d = rs.drop_last();
        let (k, fp) = rs.last();
        lemma_storable_prefix(rs);
        lemma_records_run(d);
        lemma_fp_record(after_records(d), k, fp);
        lemma_fp_run_append(fp_initial(), records_lines(d), record_lines(k, fp));
        let o = open_record(after_records(d), k, fp);
        assert(or_empty(o.enc) == fp.0) by {
            if fp.0.len() == 0 {
                assert(fp.0 =~= Seq::<char>::empty());
            }
        }
        assert(or_empty(o.srch) == fp.2) by {
            if fp.2.len() == 0 {
                assert(fp.2 =~= Seq::<char>::empty());
            }
        }
        assert((or_empty(o.enc), fp.1, or_empty(o.srch)) == fp);
        let all = records_lines(rs);
        let a = records_lines(d);
        let b = record_lines(k, fp);
        assert(all == a + b);
        assert forall|i: int| 0 <= i < all.len() implies good_line(#[trigger] all[i]) by {
            if i < a.len() {
                assert(all[i] == a[i]);
            } else {
                assert(all[i] == b[i - a.len()]);
            }
        }
    }
}

proof fn lemma_lower_bound_end(rs: Records, key: Seq<char>, i: int)
    requires
        0 <= i <= rs.len(),
        forall|j: int| 0 <= j < rs.len() ==> lex_lt(#[trigger] rs[j].0, key),
    ensures
        lower_bound(rs, key, i) == rs.len(),
    decreases rs.len() - i,
{
    if i < rs.len() {
        lemma_lower_bound_end(rs, key, i + 1);
    }
}

/// Sorting records already in key order changes nothing.
proof fn lemma_sort_sorted(rs: Records)
    requires
        sorted(rs),
    ensures
        sort_records(rs) == rs,
    decreases rs.len(),
{
    if rs.len() > 0 {
        let d = rs.drop_last();
        assert(sorted(d)) by {
            assert forall|i: int, j: int| 0 <= i < j < d.len() implies lex_lt(d[i].0, d[j].0) by {
                assert(d[i] == rs[i] && d[j] == rs[j]);
            }
        }
        lemma_sort_sorted(d);
        let (k, fp) = rs.last();
        assert forall|j: int| 0 <= j < d.len() implies lex_lt(#[trigger] d[j].0, k) by {
            assert(d[j] == rs[j]);
            assert(rs.last() == rs[rs.len() - 1]);
        }
        lemma_lower_bound_end(d, k, 0);
        assert(d.insert(d.len() as int, (k, fp)) =~= rs);
    }
}

proof fn lemma_sort_storable(rs: Records)
    requires
        records_storable(rs),
    ensures
        records_storable(sort_records(rs)),
    decreases rs.len(),
{
    if rs.len() > 0 {
        lemma_storable_prefix(rs);
        let d = rs.drop_last();
        lemma_sort_storable(d);
        let p = sort_records(d);
        let (k, fp) = rs.last();
        let r = sort_records(rs);
        let q = lower_bound(p, k, 0);
        lemma_lower_bound(p, k, 0);
        assert(r == insert_spec(p, k, fp));
        assert forall|i: int| 0 <= i < r.len() implies record_storable(#[trigger] r[i]) by {
            if q < p.len() && p[q].0 == k {
                if i != q {
                    assert(r[i] == p[i]);
                    assert(record_storable(p[i]));
                }
            } else {
                if i < q {
                    assert(r[i] == p[i]);
                    assert(record_storable(p[i]));
                } else if i > q {
                    assert(r[i] == p[i - 1]);
                    assert(record_storable(p[i - 1]));
                }
            }
        }
    }
}

/// Reading back a written store gives its records in key order; the
/// records of a store (which are kept in key order) come back as they
/// were, when their keys and hashes hold no backslash, quote, `#` or
/// newline.
pub proof fn law_store_roundtrip(rs: Records)
    requires
        records_storable(rs),
    ensures
        parse_store_spec(serialize_store_spec(rs)) == sort_records(rs),
        sorted(rs) ==> parse_store_spec(serialize_store_spec(rs)) == rs,
{
    let srt = sort_records(rs);
    lemma_sort_storable(rs);
    lemma_sort_records(rs);
    lemma_sort_sorted(srt);
    lemma_records_run(srt);
    let head = seq![header_fp(), Seq::<char>::empty()];
    let ls = head + records_lines(srt);
    reveal_strlit("# dotling sync fingerprints — managed by dotling");
    let h = header_fp();
    assert(h[0] == '#');
    assert forall|k: int| 0 <= k < h.len() implies h[k] != '\n' by {}
    assert(good_line(h));
    assert forall|i: int, k: int| 0 <= i < ls.len() && 0 <= k < ls[i].len() implies ls[i][k] != '\n' by {
        if i >= 2 {
            assert(ls[i] == records_lines(srt)[i - 2]);
            assert(good_line(records_lines(srt)[i - 2]));
        } else if i == 0 {
            assert(ls[i] == h);
        }
    }
    assert forall|i: int| 0 <= i < ls.len() implies ls[i].len() == 0 || ls[i].last() != '\r' by {
        if i >= 2 {
            assert(ls[i] == records_lines(srt)[i - 2]);
            assert(good_line(records_lines(srt)[i - 2]));
        } else if i == 0 {
            assert(ls[i] == h);
        }
    }
    lemma_lines_join(ls);
    lemma_fp_run_append(fp_initial(), head, records_lines(srt));
    lemma_fp_blank(fp_initial(), h);
    lemma_fp_blank(fp_initial(), Seq::<char>::empty());
    assert(head == seq![h].push(Seq::<char>::empty()));
    assert(seq![h].push(Seq::<char>::empty()).drop_last() =~= seq![h]);
    lemma_fp_run_one(fp_initial(), h);
    assert(fp_run(fp_initial(), head) == fp_initial());
    if sorted(rs) {
        lemma_sort_sorted(rs);
    }
}


/// The fingerprint the records give a key: that of its last record.
pub open spec fn last_value(rs: Records, key: Seq<char>) -> Option<FpView>
    decreases rs.len(),
{
    if rs.len() == 0 {
        None
    } else if rs.last().0 == key {
        Some(rs.last().1)
    } else {
        last_value(rs.drop_last(), key)
    }
}

proof fn lemma_sort_lookup(rs: Records, key: Seq<char>)
    ensures
        sorted(sort_records(rs)),
        lookup_spec(sort_records(rs), key) == last_value(rs, key),
    decreases rs.len(),
{
    if rs.len() == 0 {
        lemma_lower_bound(Seq::<(Seq<char>, FpView)>::empty(), key, 0);
    } else {
        lemma_sort_lookup(rs.drop_last(), key);
        lemma_insert(sort_records(rs.drop_last()), rs.last().0, rs.last().1);
    }
}

/// A written store read back gives every key the fingerprint of its last
/// record, and no fingerprint to a key without a record, whatever the order
/// of the records written.
pub proof fn law_store_roundtrip_by_key(rs: Records, key: Seq<char>)
    requires
        records_storable(rs),
    ensures
        lookup_spec(parse_store_spec(serialize_store_spec(rs)), key) == last_value(rs, key),
{
    law_store_roundtrip(rs);
    lemma_sort_lookup(rs, key);
}

/// After an encrypted entry's hashes are recorded and the store is saved and
/// loaded again, the entry is in sync exactly when both files still hash as
/// recorded (a file that cannot be hashed counts as changed).
pub proof fn law_in_sync_after_save_and_load(
    rs: Records,
    source: Seq<char>,
    enc: Seq<char>,
    target: Seq<char>,
    now_enc: Option<Seq<char>>,
    now_target: Option<Seq<char>>,
)
    requires
        sorted(rs),
        records_storable(rs),
        store_text(source),
        store_text(enc),
        store_text(target),
    ensures
        ({
            let saved = insert_spec(rs, source, (enc, target, Seq::empty()));
            let loaded = parse_store_spec(serialize_store_spec(saved));
            in_sync_spec(loaded, source, now_enc, now_target) == Some(now_enc == Some(enc) && now_target == Some(target))
        }),
{
    let fp = (enc, target, Seq::<char>::empty());
    let saved = insert_spec(rs, source, fp);
    lemma_insert(rs, source, fp);
    lemma_insert_storable(rs, source, fp);
    law_store_roundtrip(saved);
}

/// After a copied entry's hashes are recorded and the store is saved and
/// loaded again, the side whose current hash differs from the recorded one
/// is reported as changed, and no other (a file that cannot be hashed counts
/// as changed).
pub proof fn law_who_changed_after_save_and_load(
    rs: Records,
    source: Seq<char>,
    src_hash: Seq<char>,
    target: Seq<char>,
    now_src: Option<Seq<char>>,
    now_target: Option<Seq<char>>,
)
    requires
        sorted(rs),
        records_storable(rs),
        store_text(source),
        store_text(src_hash),
        store_text(target),
    ensures
        ({
            let saved = insert_spec(rs, source, (Seq::empty(), target, src_hash));
            let loaded = parse_store_spec(serialize_store_spec(saved));
            who_changed_spec(loaded, source, now_src, now_target) == if now_src == Some(src_hash)
                && now_target == Some(target) {
                WhichSide::Neither
            } else if now_target == Some(target) {
                WhichSide::RepoOnly
            } else if now_src == Some(src_hash) {
                WhichSide::ActualOnly
            } else {
                WhichSide::Both
            }
        }),
{
    let fp = (Seq::<char>::empty(), target, src_hash);
    let saved = insert_spec(rs, source, fp);
    lemma_insert(rs, source, fp);
    lemma_insert_storable(rs, source, fp);
    law_store_roundtrip(saved);
}

/// A source with no record has no sync answer and an unknown history.
pub proof fn law_unrecorded_source(rs: Records, source: Seq<char>, a: Option<Seq<char>>, b: Option<Seq<char>>)
    requires
        lookup_spec(rs, source) is None,
    ensures
        in_sync_spec(rs, source, a, b) is None,
        who_changed_spec(rs, source, a, b) == WhichSide::Unknown,
{
}

proof fn lemma_insert_storable(rs: Records, key: Seq<char>, fp: FpView)
    requires
        records_storable(rs),
        record_storable((key, fp)),
    ensures
        records_storable(insert_spec(rs, key, fp)),
{
    let q = lower_bound(rs, key, 0);
    lemma_lower_bound(rs, key, 0);
    let r = insert_spec(rs, key, fp);
    assert forall|i: int| 0 <= i < r.len() implies record_storable(#[trigger] r[i]) by {
        if q < rs.len() && rs[q].0 == key {
            if i != q {
                assert(r[i] == rs[i]);
            }
        } else {
            if i < q {
                assert(r[i] == rs[i]);
            } else if i > q {
                assert(r[i] == rs[i - 1]);
            }
        }
    }
}

} // verus!
