//! The secrets document (secret ids mapped to encrypted payloads) and the
//! store's operations on it. Reading and writing the files stays with the
//! caller, which hands the parsed document in and writes back what these
//! functions leave in it.
use vstd::prelude::*;
use vstd::utf8::encode_utf8;
use crate::secret_codec::{
    aes_gcm_max_plaintext, decrypt_secret, decrypt_spec, encrypt_secret, fail, normalize_secret_value, normalized_secret,
    SecretError, SecretErrorKind,
};
use crate::text::{has_prefix, str_eq};

verus! {

/// The version a secrets document is written with.
pub const SECRETS_DOC_VERSION: u32 = 2;

/// The secrets document: a version and, for each secret id, its encrypted
/// payload. No id occurs twice.
pub struct SecretsDocument {
    version: u32,
    entries: Vec<(String, String)>,
}

/// The pairs of `s`, taken by their views.
pub open spec fn pair_views(s: Seq<(String, String)>) -> Seq<(Seq<char>, Seq<char>)> {
    s.map_values(|p: (String, String)| (p.0@, p.1@))
}

/// The map a list of pairs builds when each is inserted in turn: a later
/// pair for the same id wins.
pub open spec fn entry_map(s: Seq<(Seq<char>, Seq<char>)>) -> Map<Seq<char>, Seq<char>>
    decreases s.len(),
{
    if s.len() == 0 {
        Map::empty()
    } else {
        entry_map(s.drop_last()).insert(s.last().0, s.last().1)
    }
}

/// No two pairs share an id.
pub open spec fn distinct_ids(s: Seq<(Seq<char>, Seq<char>)>) -> bool {
    forall|i: int, j: int| 0 <= i < s.len() && 0 <= j < s.len() && i != j ==> #[trigger] s[i].0 != #[trigger] s[j].0
}

proof fn lemma_entry_map_distinct(s: Seq<(Seq<char>, Seq<char>)>)
    requires
        distinct_ids(s),
    ensures
        forall|k: Seq<char>| #[trigger] entry_map(s).contains_key(k) <==> exists|i: int| 0 <= i < s.len() && s[i].0 == k,
        forall|i: int| 0 <= i < s.len() ==> #[trigger] entry_map(s)[s[i].0] == s[i].1,
    decreases s.len(),
{
    if s.len() > 0 {
        let t = s.drop_last();
        assert(distinct_ids(t));
        lemma_entry_map_distinct(t);
        assert forall|k: Seq<char>| #[trigger] entry_map(s).contains_key(k) <==> exists|i: int| 0 <= i < s.len() && s[i].0 == k by {
            if entry_map(s).contains_key(k) && k != s.last().0 {
                assert(entry_map(t).contains_key(k));
                let i = choose|i: int| 0 <= i < t.len() && t[i].0 == k;
                assert(t[i] == s[i]);
                assert(0 <= i < s.len() && s[i].0 == k);
            }
            if entry_map(s).contains_key(k) && k == s.last().0 {
                assert(s[s.len() - 1].0 == k);
            }
            if exists|i: int| 0 <= i < s.len() && s[i].0 == k {
                let i = choose|i: int| 0 <= i < s.len() && s[i].0 == k;
                if i < s.len() - 1 {
                    assert(t[i].0 == k);
                    assert(entry_map(t).contains_key(k));
                }
            }
        }
        assert forall|i: int| 0 <= i < s.len() implies #[trigger] entry_map(s)[s[i].0] == s[i].1 by {
            if i < s.len() - 1 {
                assert(t[i] == s[i]);
                assert(s[i].0 != s[s.len() - 1].0);
                assert(entry_map(t)[t[i].0] == t[i].1);
                assert(entry_map(s)[s[i].0] == entry_map(t)[s[i].0]);
            } else {
                assert(s[i] == s.last());
            }
        }
    }
}

impl SecretsDocument {
    #[verifier::type_invariant]
    spec fn ids_distinct(self) -> bool {
        distinct_ids(pair_views(self.entries@))
    }

    /// The document's secret ids and payloads.
    pub closed spec fn view(&self) -> Map<Seq<char>, Seq<char>> {
        entry_map(pair_views(self.entries@))
    }

    /// The version the document carries.
    pub closed spec fn version_of(&self) -> u32 {
        self.version
    }

    /// An empty document of the current version.
    pub fn new() -> (r: Self)
        ensures
            r.view() == Map::<Seq<char>, Seq<char>>::empty(),
            r.version_of() == SECRETS_DOC_VERSION,
    {
        let r = SecretsDocument { version: SECRETS_DOC_VERSION, entries: Vec::new() };
        assert(pair_views(r.entries@) =~= Seq::<(Seq<char>, Seq<char>)>::empty());
        r
    }

    /// A document read back with the given version and pairs; a later pair
    /// for the same id wins.
    pub fn from_parts(version: u32, pairs: Vec<(String, String)>) -> (r: Self)
        ensures
            r.view() == entry_map(pair_views(pairs@)),
            r.version_of() == version,
    {
        let mut doc = SecretsDocument { version, entries: Vec::new() };
        assert(pair_views(doc.entries@) =~= Seq::<(Seq<char>, Seq<char>)>::empty());
        assert(pair_views(pairs@.take(0)) =~= Seq::<(Seq<char>, Seq<char>)>::empty());
        let mut i: usize = 0;
        while i < pairs.len()
            invariant
                i <= pairs.len(),
                doc.view() == entry_map(pair_views(pairs@.take(i as int))),
                doc.version_of() == version,
            decreases pairs.len() - i,
        {
            let (k, v) = (pairs[i].0.clone(), pairs[i].1.clone());
            doc.insert(k, v);
            proof {
                let s = pair_views(pairs@.take(i + 1));
                assert(s.drop_last() =~= pair_views(pairs@.take(i as int)));
                assert(s.last() == (pairs@[i as int].0@, pairs@[i as int].1@));
            }
            i = i + 1;
        }
        assert(pairs@.take(pairs@.len() as int) =~= pairs@);
        doc
    }

    /// The version the document carries.
    pub fn version(&self) -> (r: u32)
        ensures
            r == self.version_of(),
    {
        self.version
    }

    /// Sets the version the document carries.
    pub fn set_version(&mut self, version: u32)
        ensures
            final(self).view() == old(self).view(),
            final(self).version_of() == version,
    {
        proof {
            use_type_invariant(&*self);
        }
        self.version = version;
    }

    /// The pairs of the document, each id once.
    pub fn entries(&self) -> (r: Vec<(String, String)>)
        ensures
            distinct_ids(pair_views(r@)),
            entry_map(pair_views(r@)) == self.view(),
    {
        proof {
            use_type_invariant(self);
        }
        let mut out: Vec<(String, String)> = Vec::new();
        let mut i: usize = 0;
        while i < self.entries.len()
            invariant
                i <= self.entries.len(),
                distinct_ids(pair_views(self.entries@)),
                pair_views(out@) == pair_views(self.entries@.take(i as int)),
            decreases self.entries.len() - i,
        {
            let ghost o = out@;
            out.push((self.entries[i].0.clone(), self.entries[i].1.clone()));
            proof {
                let e = self.entries@[i as int];
                assert(out@ == o.push(e));
                assert(self.entries@.take(i + 1) =~= self.entries@.take(i as int).push(e));
                assert(pair_views(o.push(e)) =~= pair_views(o).push((e.0@, e.1@)));
                assert(pair_views(self.entries@.take(i as int).push(e)) =~= pair_views(self.entries@.take(i as int)).push((e.0@, e.1@)));
            }
            i = i + 1;
        }
        assert(self.entries@.take(self.entries@.len() as int) =~= self.entries@);
        out
    }

    fn position(&self, id: &str) -> (r: Option<usize>)
        ensures
            match r {
                Some(i) => i < self.entries@.len() && self.entries@[i as int].0@ == id@,
                None => forall|i: int| 0 <= i < self.entries@.len() ==> #[trigger] self.entries@[i].0@ != id@,
            },
    {
        let mut i: usize = 0;
        while i < self.entries.len()
            invariant
                i <= self.entries.len(),
                forall|j: int| 0 <= j < i ==> #[trigger] self.entries@[j].0@ != id@,
            decreases self.entries.len() - i,
        {
            if str_eq(self.entries[i].0.as_str(), id) {
                return Some(i);
            }
            i = i + 1;
        }
        None
    }

    /// The payload stored for `id`, if any.
    pub fn get(&self, id: &str) -> (r: Option<String>)
        ensures
            match r {
                Some(v) => self.view().contains_key(id@) && v@ == self.view()[id@],
                None => !self.view().contains_key(id@),
            },
    {
        proof {
            use_type_invariant(self);
            lemma_entry_map_distinct(pair_views(self.entries@));
        }
        match self.position(id) {
            Some(i) => {
                proof {
                    assert(pair_views(self.entries@)[i as int].0 == id@);
                }
                Some(self.entries[i].1.clone())
            },
            None => {
                proof {
                    if self.view().contains_key(id@) {
                        let j = choose|j: int| 0 <= j < pair_views(self.entries@).len() && pair_views(self.entries@)[j].0 == id@;
                        assert(self.entries@[j].0@ != id@);
                    }
                }
                None
            },
        }
    }

    /// Whether the document holds no secret.
    pub fn is_empty(&self) -> (r: bool)
        ensures
            r == (self.view() == Map::<Seq<char>, Seq<char>>::empty()),
    {
        proof {
            use_type_invariant(self);
            lemma_entry_map_distinct(pair_views(self.entries@));
        }
        if self.entries.len() == 0 {
            assert(pair_views(self.entries@) =~= Seq::<(Seq<char>, Seq<char>)>::empty());
            true
        } else {
            proof {
                let k = pair_views(self.entries@)[0].0;
                assert(self.view().contains_key(k));
            }
            false
        }
    }

    /// Stores `value` for `id`, in place of what was there.
    pub fn insert(&mut self, id: String, value: String)
        ensures
            final(self).view() == old(self).view().insert(id@, value@),
            final(self).version_of() == old(self).version_of(),
    {
        proof {
            use_type_invariant(&*self);
            lemma_entry_map_distinct(pair_views(self.entries@));
        }
        let ghost before = pair_views(self.entries@);
        match self.position(id.as_str()) {
            Some(i) => {
                let ghost idv = id@;
                let ghost vv = value@;
                let mut entries: Vec<(String, String)> = Vec::new();
                std::mem::swap(&mut entries, &mut self.entries);
                entries.set(i, (id, value));
                proof {
                    let after = pair_views(entries@);
                    assert(after =~= before.update(i as int, (idv, vv)));
                    assert(distinct_ids(after)) by {
                        assert forall|a: int, b: int| 0 <= a < after.len() && 0 <= b < after.len() && a != b implies #[trigger] after[a].0 != #[trigger] after[b].0 by {
                            if a != i && b != i {
                                assert(before[a].0 != before[b].0);
                            } else if a == i {
                                assert(before[b].0 != before[i as int].0);
                            } else {
                                assert(before[a].0 != before[i as int].0);
                            }
                        }
                    }
                    lemma_entry_map_distinct(after);
                    assert(entry_map(after) =~= entry_map(before).insert(idv, vv)) by {
                        assert forall|k: Seq<char>| #[trigger] entry_map(after).contains_key(k) <==> entry_map(before).insert(idv, vv).contains_key(k) by {
                            if entry_map(after).contains_key(k) {
                                let j = choose|j: int| 0 <= j < after.len() && after[j].0 == k;
                                if j != i {
                                    assert(before[j].0 == k);
                                }
                            }
                            if entry_map(before).contains_key(k) && k != idv {
                                let j = choose|j: int| 0 <= j < before.len() && before[j].0 == k;
                                assert(after[j].0 == k);
                            }
                            if k == idv {
                                assert(after[i as int].0 == k);
                            }
                        }
                        assert forall|k: Seq<char>| #[trigger] entry_map(after).contains_key(k) implies entry_map(after)[k] == entry_map(before).insert(idv, vv)[k] by {
                            let j = choose|j: int| 0 <= j < after.len() && after[j].0 == k;
                            assert(entry_map(after)[after[j].0] == after[j].1);
                            if j != i {
                                assert(after[j] == before[j]);
                                assert(after[j].0 != after[i as int].0);
                                assert(after[i as int].0 == idv);
                                assert(entry_map(before)[before[j].0] == before[j].1);
                            } else {
                                assert(after[j] == (idv, vv));
                            }
                        }
                    }
                }
                self.entries = entries;
            },
            None => {
                let ghost idv = id@;
                let ghost vv = value@;
                let mut entries: Vec<(String, String)> = Vec::new();
                std::mem::swap(&mut entries, &mut self.entries);
                entries.push((id, value));
                proof {
                    let after = pair_views(entries@);
                    assert(after.drop_last() =~= before);
                    assert(after.last() == (idv, vv));
                    assert(distinct_ids(after)) by {
                        assert forall|a: int, b: int| 0 <= a < after.len() && 0 <= b < after.len() && a != b implies #[trigger] after[a].0 != #[trigger] after[b].0 by {
                            if a < before.len() && b < before.len() {
                                assert(before[a].0 != before[b].0);
                            } else if a < before.len() {
                                assert(after[a] == before[a]);
                            } else {
                                assert(after[b] == before[b]);
                            }
                        }
                    }
                }
                self.entries = entries;
            },
        }
    }

    /// Drops what is stored for `id`, if anything.
    pub fn remove(&mut self, id: &str)
        ensures
            final(self).view() == old(self).view().remove(id@),
            final(self).version_of() == old(self).version_of(),
    {
        proof {
            use_type_invariant(&*self);
            lemma_entry_map_distinct(pair_views(self.entries@));
        }
        let ghost before = pair_views(self.entries@);
        match self.position(id) {
            Some(i) => {
                let mut entries: Vec<(String, String)> = Vec::new();
                std::mem::swap(&mut entries, &mut self.entries);
                entries.remove(i);
                proof {
                    let after = pair_views(entries@);
                    assert(after =~= before.remove(i as int));
                    assert(distinct_ids(after)) by {
                        assert forall|a: int, b: int| 0 <= a < after.len() && 0 <= b < after.len() && a != b implies #[trigger] after[a].0 != #[trigger] after[b].0 by {
                            let a2 = if a < i { a } else { a + 1 };
                            let b2 = if b < i { b } else { b + 1 };
                            assert(after[a] == before[a2]);
                            assert(after[b] == before[b2]);
                            assert(before[a2].0 != before[b2].0);
                        }
                    }
                    lemma_entry_map_distinct(after);
                    assert(entry_map(after) =~= entry_map(before).remove(id@)) by {
                        assert forall|k: Seq<char>| #[trigger] entry_map(after).contains_key(k) <==> entry_map(before).remove(id@).contains_key(k) by {
                            if entry_map(after).contains_key(k) {
                                let j = choose|j: int| 0 <= j < after.len() && after[j].0 == k;
                                let j2 = if j < i { j } else { j + 1 };
                                assert(before[j2] == after[j]);
                                assert(before[j2].0 != before[i as int].0);
                            }
                            if entry_map(before).contains_key(k) && k != id@ {
                                let j = choose|j: int| 0 <= j < before.len() && before[j].0 == k;
                                assert(j != i);
                                let j2 = if j < i { j } else { j - 1 };
                                assert(after[j2] == before[j]);
                            }
                        }
                        assert forall|k: Seq<char>| #[trigger] entry_map(after).contains_key(k) implies entry_map(after)[k] == entry_map(before)[k] by {
                            let j = choose|j: int| 0 <= j < after.len() && after[j].0 == k;
                            let j2 = if j < i { j } else { j + 1 };
                            assert(before[j2] == after[j]);
                            assert(entry_map(after)[after[j].0] == after[j].1);
                            assert(entry_map(before)[before[j2].0] == before[j2].1);
                        }
                    }
                }
                self.entries = entries;
            },
            None => {
                proof {
                    assert(!entry_map(before).contains_key(id@)) by {
                        if entry_map(before).contains_key(id@) {
                            let j = choose|j: int| 0 <= j < before.len() && before[j].0 == id@;
                            assert(self.entries@[j].0@ != id@);
                        }
                    }
                    assert(entry_map(before).remove(id@) =~= entry_map(before));
                }
            },
        }
    }
}


/// The secret id of the transcription service's API key.
pub open spec fn soniox_api_key_secret_id() -> Seq<char> {
    "provider.soniox.api_key"@
}

/// What reading secret `id` from a document gives under `key`: nothing when
/// the document has no entry for it, else the entry decrypted (see
/// `decrypt_spec`).
pub open spec fn stored_secret(key: Seq<u8>, document: Map<Seq<char>, Seq<char>>, id: Seq<char>) -> Option<
    Result<Seq<char>, SecretErrorKind>,
> {
    if document.contains_key(id) {
        Some(decrypt_spec(key, document[id]))
    } else {
        None
    }
}

/// What a successful write of `value` reads back as: the normalised value,
/// or, for a blank one, that nothing is configured.
pub open spec fn written_secret(value: Seq<char>) -> Result<Seq<char>, SecretErrorKind> {
    match normalized_secret(value) {
        Some(v) => Ok(v),
        None => Err(SecretErrorKind::NotConfigured),
    }
}

/// The files to remove once a secret is cleared; the document left behind
/// is to be written back when the secrets file is kept.
pub struct ClearedSecretFiles {
    /// The document is empty: remove the secrets file rather than write it.
    pub remove_secrets_file: bool,
    /// The cleared secret is the API key: remove its old key file too.
    pub remove_legacy_key_file: bool,
}

/// Access to the locally stored secrets; reading and writing the files is
/// done by the caller, which hands the parsed secrets document and the local
/// key to these methods.
pub struct SecretStore;

impl SecretStore {
    pub fn new() -> (r: Self) {
        SecretStore
    }

    /// The secret id of the transcription service's API key.
    pub fn api_key_secret_id(&self) -> (r: String)
        ensures
            r@ == soniox_api_key_secret_id(),
    {
        String::from_str("provider.soniox.api_key")
    }

    /// Reads secret `id` from the document: `None` when it has no entry,
    /// else the entry decrypted under `key`.
    pub fn get_secret(&self, document: &SecretsDocument, key: &[u8], secret_id: &str) -> (r: Option<
        Result<String, SecretError>,
    >)
        requires
            key@.len() == 32,
        ensures
            match stored_secret(key@, document.view(), secret_id@) {
                None => r is None,
                Some(Ok(v)) => r matches Some(Ok(s)) && s@ == v,
                Some(Err(k)) => r matches Some(Err(e)) && e.kind == k,
            },
    {
        match document.get(secret_id) {
            Some(payload) => Some(decrypt_secret(key, payload.as_str())),
            None => None,
        }
    }

    /// Reads the API key from the document (see `get_secret`).
    pub fn runtime_api_key(&self, document: &SecretsDocument, key: &[u8]) -> (r: Option<Result<String, SecretError>>)
        requires
            key@.len() == 32,
        ensures
            match stored_secret(key@, document.view(), soniox_api_key_secret_id()) {
                None => r is None,
                Some(Ok(v)) => r matches Some(Ok(s)) && s@ == v,
                Some(Err(k)) => r matches Some(Err(e)) && e.kind == k,
            },
    {
        let id = self.api_key_secret_id();
        self.get_secret(document, key, id.as_str())
    }

    /// Stores `value`, trimmed and encrypted under `key`, as secret `id`,
    /// and marks the document with the current version. A blank value is
    /// refused and leaves the document as it was, as does a failed
    /// encryption. Once stored, the secret reads back as the trimmed value,
    /// and every other secret reads as before.
    pub fn upsert_secret(&self, document: &mut SecretsDocument, key: &[u8], secret_id: &str, value: &str) -> (r: Result<
        (),
        SecretError,
    >)
        requires
            key@.len() == 32,
            encode_utf8(value@).len() < usize::MAX / 8,
        ensures
            normalized_secret(value@) is None ==> (r matches Err(e) && e.kind == SecretErrorKind::Missing),
            r is Err ==> *final(document) == *old(document),
            r is Err && normalized_secret(value@) is Some ==> r->Err_0.kind == SecretErrorKind::Encrypt,
            normalized_secret(value@) is Some && encode_utf8(value@).len() <= aes_gcm_max_plaintext() ==> r is Ok,
            r is Ok ==> final(document).view().dom() == old(document).view().dom().insert(secret_id@),
            r is Ok ==> has_prefix(final(document).view()[secret_id@], "enc:v1:"@),
            r is Ok ==> final(document).version_of() == SECRETS_DOC_VERSION,
            r is Ok ==> stored_secret(key@, final(document).view(), secret_id@) == Some(written_secret(value@)),
            r is Ok ==> forall|other: Seq<char>| other != secret_id@ ==> stored_secret(key@, final(document).view(), other)
                == stored_secret(key@, old(document).view(), other),
    {
        let normalized = match normalize_secret_value(value) {
            Some(v) => v,
            None => {
                return fail(SecretErrorKind::Missing, String::new());
            },
        };
        proof {
            lemma_trim_encoding_bound(value@, normalized@);
        }
        let payload = match encrypt_secret(key, normalized.as_str()) {
            Ok(p) => p,
            Err(e) => {
                return Err(e);
            },
        };
        proof {
            crate::text::lemma_trim_idempotent(value@);
        }
        document.set_version(SECRETS_DOC_VERSION);
        document.insert(secret_id.to_string(), payload);
        proof {
            assert(final(document).view().dom() =~= old(document).view().dom().insert(secret_id@));
        }
        Ok(())
    }

    /// Stores the API key (see `upsert_secret`).
    pub fn upsert_api_key(&mut self, document: &mut SecretsDocument, key: &[u8], value: &str) -> (r: Result<(), SecretError>)
        requires
            key@.len() == 32,
            encode_utf8(value@).len() < usize::MAX / 8,
        ensures
            normalized_secret(value@) is None ==> (r matches Err(e) && e.kind == SecretErrorKind::Missing),
            r is Err ==> *final(document) == *old(document),
            r is Err && normalized_secret(value@) is Some ==> r->Err_0.kind == SecretErrorKind::Encrypt,
            normalized_secret(value@) is Some && encode_utf8(value@).len() <= aes_gcm_max_plaintext() ==> r is Ok,
            r is Ok ==> final(document).view().dom() == old(document).view().dom().insert(soniox_api_key_secret_id()),
            r is Ok ==> has_prefix(final(document).view()[soniox_api_key_secret_id()], "enc:v1:"@),
            r is Ok ==> final(document).version_of() == SECRETS_DOC_VERSION,
            r is Ok ==> stored_secret(key@, final(document).view(), soniox_api_key_secret_id()) == Some(
                written_secret(value@),
            ),
            r is Ok ==> forall|other: Seq<char>| other != soniox_api_key_secret_id() ==> stored_secret(
                key@,
                final(document).view(),
                other,
            ) == stored_secret(key@, old(document).view(), other),
    {
        let id = self.api_key_secret_id();
        self.upsert_secret(document, key, id.as_str(), value)
    }

    /// Drops secret `id` from the document. When nothing is left the
    /// secrets file is to be removed; else the document, marked with the
    /// current version, is to be written back. Clearing the API key also
    /// removes its old key file.
    pub fn clear_secret(&self, document: &mut SecretsDocument, secret_id: &str) -> (r: ClearedSecretFiles)
        ensures
            final(document).view() == old(document).view().remove(secret_id@),
            r.remove_secrets_file == (final(document).view() == Map::<Seq<char>, Seq<char>>::empty()),
            !r.remove_secrets_file ==> final(document).version_of() == SECRETS_DOC_VERSION,
            r.remove_secrets_file ==> final(document).version_of() == old(document).version_of(),
            r.remove_legacy_key_file == (secret_id@ == soniox_api_key_secret_id()),
            forall|k: Seq<u8>| #[trigger] stored_secret(k, final(document).view(), secret_id@) is None,
    {
        document.remove(secret_id);
        let empty = document.is_empty();
        if !empty {
            document.set_version(SECRETS_DOC_VERSION);
        }
        let id = self.api_key_secret_id();
        ClearedSecretFiles { remove_secrets_file: empty, remove_legacy_key_file: str_eq(secret_id, id.as_str()) }
    }

    /// Drops the API key (see `clear_secret`).
    pub fn clear_api_key(&mut self, document: &mut SecretsDocument) -> (r: ClearedSecretFiles)
        ensures
            final(document).view() == old(document).view().remove(soniox_api_key_secret_id()),
            r.remove_secrets_file == (final(document).view() == Map::<Seq<char>, Seq<char>>::empty()),
            !r.remove_secrets_file ==> final(document).version_of() == SECRETS_DOC_VERSION,
            r.remove_legacy_key_file,
    {
        let id = self.api_key_secret_id();
        self.clear_secret(document, id.as_str())
    }
}

/// The places a secret is looked up in, in order: the secrets document,
/// then the single secret older versions kept in the secrets file, then
/// the old API key file.
#[derive(Debug, Clone, Copy, PartialEq, Eq, Structural)]
pub enum SecretSource {
    Document,
    LegacySecretsFile,
    LegacyKeyFile,
}

/// The next step of reading a secret.
#[derive(Debug, Clone, PartialEq, Eq)]
pub enum SecretLookup {
    /// Look in this place.
    Look(SecretSource),
    /// The secret, as stored in the document.
    Use(String),
    /// A secret from an old place: store it in the document (see
    /// `upsert_secret`), remove the old key file, and use it.
    Migrate(String),
    /// No secret is configured.
    NotConfigured,
}

/// Reading a secret: the document is looked in first and what it holds is
/// used; else the old secrets file, then the old key file, and a secret
/// found there is migrated; with nothing anywhere, no secret is configured.
pub fn next_secret_lookup(found: &[Option<String>]) -> (r: SecretLookup)
    ensures
        found@.len() == 0 ==> r == SecretLookup::Look(SecretSource::Document),
        found@.len() == 1 ==> match found@[0] {
            Some(v) => r == SecretLookup::Use(v),
            None => r == SecretLookup::Look(SecretSource::LegacySecretsFile),
        },
        found@.len() == 2 ==> match found@[1] {
            Some(v) => r == SecretLookup::Migrate(v),
            None => r == SecretLookup::Look(SecretSource::LegacyKeyFile),
        },
        found@.len() >= 3 ==> match found@[2] {
            Some(v) => r == SecretLookup::Migrate(v),
            None => r == SecretLookup::NotConfigured,
        },
{
    let n = found.len();
    if n == 0 {
        return SecretLookup::Look(SecretSource::Document);
    }
    if n == 1 {
        return match &found[0] {
            Some(v) => SecretLookup::Use(v.clone()),
            None => SecretLookup::Look(SecretSource::LegacySecretsFile),
        };
    }
    if n == 2 {
        return match &found[1] {
            Some(v) => SecretLookup::Migrate(v.clone()),
            None => SecretLookup::Look(SecretSource::LegacyKeyFile),
        };
    }
    match &found[2] {
        Some(v) => SecretLookup::Migrate(v.clone()),
        None => SecretLookup::NotConfigured,
    }
}

proof fn lemma_encode_concat(a: Seq<char>, b: Seq<char>)
    ensures
        encode_utf8(a + b) == encode_utf8(a) + encode_utf8(b),
    decreases a.len(),
{
    if a.len() == 0 {
        assert(a + b =~= b);
        assert(encode_utf8(a) =~= Seq::<u8>::empty());
        assert(encode_utf8(a) + encode_utf8(b) =~= encode_utf8(b));
    } else {
        assert((a + b)[0] == a[0]);
        assert((a + b).drop_first() =~= a.drop_first() + b);
        lemma_encode_concat(a.drop_first(), b);
        let e = vstd::utf8::encode_scalar(a[0] as u32);
        assert(encode_utf8(a + b) == e + encode_utf8(a.drop_first() + b));
        assert(encode_utf8(a) == e + encode_utf8(a.drop_first()));
        assert(e + (encode_utf8(a.drop_first()) + encode_utf8(b)) =~= (e + encode_utf8(a.drop_first()))
            + encode_utf8(b));
    }
}

proof fn lemma_trim_encoding_bound(value: Seq<char>, t: Seq<char>)
    requires
        t == crate::text::trim_seq(value),
    ensures
        encode_utf8(t).len() <= encode_utf8(value).len(),
{
    let l = crate::text::leading_ws(value) as int;
    crate::text::lemma_leading_ws_bound(value);
    let u = value.skip(l);
    crate::text::lemma_trailing_ws_bound(u);
    let m = u.len() - crate::text::trailing_ws(u);
    assert(t == u.take(m));
    assert(value =~= value.take(l) + u);
    lemma_encode_concat(value.take(l), u);
    assert(u =~= t + u.skip(m));
    lemma_encode_concat(t, u.skip(m));
}

} // verus!
