//! DevilID: decentralized identities (`did:devil:<address>`) with unique
//! usernames, DAO verification and verifiable credentials.

use vstd::prelude::*;
use vstd::utf8::encode_utf8;
use crate::crypto::{sha256_hex, sha256_hex_spec};
use crate::strmap::{StrMap, lookup, has_key, map_of, key_at, lemma_lookup_at};
use crate::text::str_eq;

verus! {

#[derive(Debug, Clone)]
pub struct DIDDocument {
    pub id: String,
    pub controller: String,
    pub username: String,
    pub display_name: String,
    pub avatar_cid: String,
    pub bio: String,
    pub created_at: u64,
    pub reputation: u64,
    pub dao_verified: bool,
    pub credentials: Vec<VerifiableCredential>,
}

#[derive(Debug, Clone)]
pub struct VerifiableCredential {
    pub id: String,
    pub issuer: String,
    pub subject: String,
    pub credential_type: String,
    pub data_hash: String,
    pub issued_at: u64,
    pub expires_at: u64,
    pub revoked: bool,
}

impl VerifiableCredential {
    pub fn copy(&self) -> (r: Self)
        ensures
            r == *self,
    {
        VerifiableCredential {
            id: self.id.clone(),
            issuer: self.issuer.clone(),
            subject: self.subject.clone(),
            credential_type: self.credential_type.clone(),
            data_hash: self.data_hash.clone(),
            issued_at: self.issued_at,
            expires_at: self.expires_at,
            revoked: self.revoked,
        }
    }
}

/// Two documents agree on every field, credentials compared by contents.
pub open spec fn same_doc_except_credentials(a: DIDDocument, b: DIDDocument) -> bool {
    &&& a.id == b.id
    &&& a.controller == b.controller
    &&& a.username == b.username
    &&& a.display_name == b.display_name
    &&& a.avatar_cid == b.avatar_cid
    &&& a.bio == b.bio
    &&& a.created_at == b.created_at
    &&& a.reputation == b.reputation
    &&& a.dao_verified == b.dao_verified
}

impl DIDDocument {
    pub fn copy(&self) -> (r: Self)
        ensures
            same_doc_except_credentials(r, *self),
            r.credentials@ == self.credentials@,
    {
        let mut creds: Vec<VerifiableCredential> = Vec::new();
        let mut i: usize = 0;
        while i < self.credentials.len()
            invariant
                i <= self.credentials@.len(),
                creds@ == self.credentials@.subrange(0, i as int),
            decreases self.credentials@.len() - i,
        {
            creds.push(self.credentials[i].copy());
            i = i + 1;
            assert(creds@ =~= self.credentials@.subrange(0, i as int));
        }
        assert(creds@ =~= self.credentials@);
        DIDDocument {
            id: self.id.clone(),
            controller: self.controller.clone(),
            username: self.username.clone(),
            display_name: self.display_name.clone(),
            avatar_cid: self.avatar_cid.clone(),
            bio: self.bio.clone(),
            created_at: self.created_at,
            reputation: self.reputation,
            dao_verified: self.dao_verified,
            credentials: creds,
        }
    }
}

/// `did:devil:` followed by the address.
pub open spec fn did_of(address: Seq<char>) -> Seq<char> {
    "did:devil:"@ + address
}

/// The credential id: hex SHA-256 of issuer, subject, type and data run
/// together.
pub open spec fn credential_id_spec(issuer: Seq<char>, subject: Seq<char>, cred_type: Seq<char>, data: Seq<char>) -> Seq<char> {
    sha256_hex_spec(encode_utf8(issuer + subject + cred_type + data))
}


/// `std::time::UNIX_EPOCH.elapsed()`, the seconds since 1970 on the
/// machine's clock, or 0 for a clock set before 1970. Nothing is stated of
/// the value: it is the time.
#[verifier::external_body]
pub fn now_timestamp() -> u64 {
    match std::time::UNIX_EPOCH.elapsed() {
        Ok(d) => d.as_secs(),
        Err(_) => 0,
    }
}

/// A new identity is filed: the document for `address` (with the given
/// profile, creation time, no reputation, not verified, no credentials) is
/// appended to the identities and `username` is appended to the index,
/// pointing at `address`.
pub open spec fn identity_filed(
    ids0: Seq<(Seq<char>, DIDDocument)>,
    ids1: Seq<(Seq<char>, DIDDocument)>,
    names0: Seq<(Seq<char>, String)>,
    names1: Seq<(Seq<char>, String)>,
    address: Seq<char>,
    username: Seq<char>,
    display_name: Seq<char>,
    bio: Seq<char>,
    avatar_cid: Seq<char>,
    created_at: u64,
) -> bool {
    &&& ids1.len() == ids0.len() + 1
    &&& ids1.drop_last() == ids0
    &&& ids1.last().0 == address
    &&& {
        let doc = ids1.last().1;
        &&& doc.id@ == did_of(address)
        &&& doc.controller@ == address
        &&& doc.username@ == username
        &&& doc.display_name@ == display_name
        &&& doc.avatar_cid@ == avatar_cid
        &&& doc.bio@ == bio
        &&& doc.created_at == created_at
        &&& doc.reputation == 0
        &&& !doc.dao_verified
        &&& doc.credentials@.len() == 0
    }
    &&& names1.len() == names0.len() + 1
    &&& names1.drop_last() == names0
    &&& names1.last().0 == username
    &&& names1.last().1@ == address
}

/// Every indexed username points at an identity that carries that username
/// and is controlled by the indexed address.
pub open spec fn names_linked(ids: Seq<(Seq<char>, DIDDocument)>, names: Seq<(Seq<char>, String)>) -> bool {
    forall|u: Seq<char>| #[trigger] lookup(names, u) matches Some(a) ==> (lookup(ids, a@) matches Some(d)
        && d.username@ == u && d.controller@ == a@)
}

/// Going from the first registry state to the second loses nothing: every
/// indexed username still points at the same address, and every identity is
/// still filed under its address with the same username and controller.
pub open spec fn names_kept(
    ids0: Seq<(Seq<char>, DIDDocument)>,
    names0: Seq<(Seq<char>, String)>,
    ids1: Seq<(Seq<char>, DIDDocument)>,
    names1: Seq<(Seq<char>, String)>,
) -> bool {
    &&& forall|u: Seq<char>| #[trigger] lookup(names0, u) is Some ==> lookup(names1, u) == lookup(names0, u)
    &&& forall|a: Seq<char>| #[trigger] lookup(ids0, a) matches Some(d) ==> (lookup(ids1, a) matches Some(d2)
        && d2.username@ == d.username@ && d2.controller@ == d.controller@)
}

/// A credential is filed with the identity at position `i`: every other
/// identity is untouched, and this one keeps its profile and gains the
/// credential at the end of its list.
pub open spec fn credential_filed(
    ids0: Seq<(Seq<char>, DIDDocument)>,
    ids1: Seq<(Seq<char>, DIDDocument)>,
    i: int,
    id: Seq<char>,
    issuer: Seq<char>,
    subject: Seq<char>,
    cred_type: Seq<char>,
    data: Seq<char>,
    expires_at: u64,
    issued_at: u64,
) -> bool {
    let d = ids0[i].1;
    &&& key_at(ids0, subject, i)
    &&& ids1.len() == ids0.len()
    &&& forall|j: int| 0 <= j < ids0.len() && j != i ==> #[trigger] ids1[j] == ids0[j]
    &&& ids1[i].0 == subject
    &&& same_doc_except_credentials(ids1[i].1, d)
    &&& ids1[i].1.credentials@.drop_last() == d.credentials@
    &&& ids1[i].1.credentials@.len() == d.credentials@.len() + 1
    &&& {
        let c = ids1[i].1.credentials@.last();
        &&& c.id@ == id
        &&& c.issuer@ == issuer
        &&& c.subject@ == subject
        &&& c.credential_type@ == cred_type
        &&& c.data_hash@ == sha256_hex_spec(encode_utf8(data))
        &&& c.issued_at == issued_at
        &&& c.expires_at == expires_at
        &&& !c.revoked
    }
}

/// The position of the first credential with id `id`.
fn first_credential(creds: &Vec<VerifiableCredential>, id: &str) -> (r: Option<usize>)
    ensures
        r matches Some(k) ==> k < creds@.len() && creds@[k as int].id@ == id@
            && forall|m: int| 0 <= m < k ==> creds@[m].id@ != id@,
        r is None ==> forall|m: int| 0 <= m < creds@.len() ==> creds@[m].id@ != id@,
{
    let n = creds.len();
    let mut k: usize = 0;
    while k < n
        invariant
            n == creds@.len(),
            k <= n,
            forall|m: int| 0 <= m < k ==> creds@[m].id@ != id@,
        decreases n - k,
    {
        if str_eq(creds[k].id.as_str(), id) {
            return Some(k);
        }
        k = k + 1;
    }
    None
}

pub struct DevilIDRegistry {
    pub identities: StrMap<DIDDocument>,
    pub username_index: StrMap<String>,
}

impl DevilIDRegistry {
    pub open spec fn wf(&self) -> bool {
        self.identities.wf() && self.username_index.wf()
    }

    pub fn new() -> (r: Self)
        ensures
            r.wf(),
            names_linked(r.identities@, r.username_index@),
            r.identities@.len() == 0,
            r.username_index@.len() == 0,
    {
        DevilIDRegistry { identities: StrMap::new(), username_index: StrMap::new() }
    }

    /// `create` with the creation time given.
    pub fn create_at(
        &mut self,
        address: &str,
        username: &str,
        display_name: &str,
        bio: &str,
        avatar_cid: &str,
        created_at: u64,
    ) -> (r: Result<String, String>)
        requires
            old(self).wf(),
        ensures
            final(self).wf(),
            names_kept(old(self).identities@, old(self).username_index@, final(self).identities@, final(self).username_index@),
            names_linked(old(self).identities@, old(self).username_index@) ==> names_linked(final(self).identities@, final(self).username_index@),
            r is Err ==> final(self).identities@ == old(self).identities@ && final(self).username_index@ == old(self).username_index@,
            has_key(old(self).identities@, address@) ==> (r matches Err(e) && e@ == "Identity already exists"@),
            !has_key(old(self).identities@, address@) && has_key(old(self).username_index@, username@)
                ==> (r matches Err(e) && e@ == "Username taken"@),
            !has_key(old(self).identities@, address@) && !has_key(old(self).username_index@, username@)
                && encode_utf8(username@).len() < 3 ==> (r matches Err(e) && e@ == "Username too short"@),
            !has_key(old(self).identities@, address@) && !has_key(old(self).username_index@, username@)
                && encode_utf8(username@).len() >= 3 ==> {
                &&& (r matches Ok(did) && did@ == did_of(address@))
                &&& identity_filed(old(self).identities@, final(self).identities@, old(self).username_index@,
                    final(self).username_index@, address@, username@, display_name@, bio@, avatar_cid@, created_at)
            },
    {
        proof { lemma_names_kept_refl(self.identities@, self.username_index@); }
        if self.identities.contains_key(address) {
            return Err("Identity already exists".to_owned());
        }
        if self.username_index.contains_key(username) {
            return Err("Username taken".to_owned());
        }
        if username.as_bytes().len() < 3 {
            return Err("Username too short".to_owned());
        }
        let mut did = String::new();
        did.append("did:devil:");
        did.append(address);
        let doc = DIDDocument {
            id: did.clone(),
            controller: address.to_owned(),
            username: username.to_owned(),
            display_name: display_name.to_owned(),
            avatar_cid: avatar_cid.to_owned(),
            bio: bio.to_owned(),
            created_at,
            reputation: 0,
            dao_verified: false,
            credentials: Vec::new(),
        };
        let ghost ids0 = self.identities@;
        self.identities.insert(address.to_owned(), doc);
        assert(self.identities@.drop_last() =~= ids0);
        let ghost names0 = self.username_index@;
        self.username_index.insert(username.to_owned(), address.to_owned());
        assert(self.username_index@.drop_last() =~= names0);
        proof {
            lemma_create_keeps_names(ids0, self.identities@, names0, self.username_index@, address@, username@,
                display_name@, bio@, avatar_cid@, created_at);
        }
        Ok(did)
    }

    /// Creates the identity of `address`, stamped with the current time.
    pub fn create(&mut self, address: &str, username: &str, display_name: &str, bio: &str, avatar_cid: &str) -> (r: Result<String, String>)
        requires
            old(self).wf(),
        ensures
            final(self).wf(),
            names_kept(old(self).identities@, old(self).username_index@, final(self).identities@, final(self).username_index@),
            names_linked(old(self).identities@, old(self).username_index@) ==> names_linked(final(self).identities@, final(self).username_index@),
            r is Err ==> final(self).identities@ == old(self).identities@ && final(self).username_index@ == old(self).username_index@,
            has_key(old(self).identities@, address@) ==> (r matches Err(e) && e@ == "Identity already exists"@),
            !has_key(old(self).identities@, address@) && has_key(old(self).username_index@, username@)
                ==> (r matches Err(e) && e@ == "Username taken"@),
            !has_key(old(self).identities@, address@) && !has_key(old(self).username_index@, username@)
                && encode_utf8(username@).len() < 3 ==> (r matches Err(e) && e@ == "Username too short"@),
            !has_key(old(self).identities@, address@) && !has_key(old(self).username_index@, username@)
                && encode_utf8(username@).len() >= 3 ==> {
                &&& (r matches Ok(did) && did@ == did_of(address@))
                &&& exists|t: u64| identity_filed(old(self).identities@, final(self).identities@, old(self).username_index@,
                    final(self).username_index@, address@, username@, display_name@, bio@, avatar_cid@, t)
            },
    {
        let now = now_timestamp();
        self.create_at(address, username, display_name, bio, avatar_cid, now)
    }

    pub fn resolve(&self, address: &str) -> (r: Option<&DIDDocument>)
        requires
            self.wf(),
        ensures
            match r {
                Some(d) => lookup(self.identities@, address@) == Some(*d),
                None => lookup(self.identities@, address@) is None,
            },
    {
        self.identities.get(address)
    }

    /// The identity registered under `username`.
    pub fn resolve_username(&self, username: &str) -> (r: Option<&DIDDocument>)
        requires
            self.wf(),
        ensures
            match lookup(self.username_index@, username@) {
                Some(addr) => match r {
                    Some(d) => lookup(self.identities@, addr@) == Some(*d),
                    None => lookup(self.identities@, addr@) is None,
                },
                None => r is None,
            },
    {
        match self.username_index.get(username) {
            Some(addr) => self.identities.get(addr.as_str()),
            None => None,
        }
    }

    /// Marks the identity of `address` DAO-verified and adds 100 reputation.
    pub fn dao_verify(&mut self, address: &str)
        requires
            old(self).wf(),
            lookup(old(self).identities@, address@) matches Some(d) ==> d.reputation + 100 <= u64::MAX,
        ensures
            final(self).wf(),
            names_kept(old(self).identities@, old(self).username_index@, final(self).identities@, final(self).username_index@),
            names_linked(old(self).identities@, old(self).username_index@) ==> names_linked(final(self).identities@, final(self).username_index@),
            final(self).username_index@ == old(self).username_index@,
            lookup(old(self).identities@, address@) is None ==> final(self).identities@ == old(self).identities@,
            lookup(old(self).identities@, address@) matches Some(d) ==> exists|i: int| {
                &&& key_at(old(self).identities@, address@, i)
                &&& final(self).identities@.len() == old(self).identities@.len()
                &&& forall|j: int| 0 <= j < old(self).identities@.len() && j != i ==> #[trigger] final(self).identities@[j] == old(self).identities@[j]
                &&& final(self).identities@[i].0 == address@
                &&& final(self).identities@[i].1.dao_verified
                &&& final(self).identities@[i].1.reputation == d.reputation + 100
                &&& final(self).identities@[i].1.id == d.id
                &&& final(self).identities@[i].1.controller == d.controller
                &&& final(self).identities@[i].1.username == d.username
                &&& final(self).identities@[i].1.display_name == d.display_name
                &&& final(self).identities@[i].1.avatar_cid == d.avatar_cid
                &&& final(self).identities@[i].1.bio == d.bio
                &&& final(self).identities@[i].1.created_at == d.created_at
                &&& final(self).identities@[i].1.credentials@ == d.credentials@
            },
    {
        let ghost s = self.identities@;
        match self.identities.find(address) {
            None => {
                proof { lemma_names_kept_refl(s, self.username_index@); }
            },
            Some(i) => {
                proof { lemma_lookup_at(s, i as int); }
                let mut doc = self.identities.value_at(i).copy();
                doc.dao_verified = true;
                doc.reputation = doc.reputation + 100;
                self.identities.set_value_at(i, doc);
                assert(key_at(s, address@, i as int));
                proof {
                    assert forall|j: int| 0 <= j < s.len() implies (#[trigger] self.identities@[j]).0 == s[j].0
                        && self.identities@[j].1.username@ == s[j].1.username@
                        && self.identities@[j].1.controller@ == s[j].1.controller@ by {
                        if j != i {
                            assert(self.identities@[j] == s[j]);
                        }
                    }
                    lemma_update_keeps_names(s, self.identities@, self.username_index@);
                }
            },
        }
    }

    /// `issue_credential` with the issue time given.
    pub fn issue_credential_at(
        &mut self,
        issuer: &str,
        subject: &str,
        cred_type: &str,
        data: &str,
        expires_at: u64,
        issued_at: u64,
    ) -> (r: String)
        requires
            old(self).wf(),
        ensures
            final(self).wf(),
            names_kept(old(self).identities@, old(self).username_index@, final(self).identities@, final(self).username_index@),
            names_linked(old(self).identities@, old(self).username_index@) ==> names_linked(final(self).identities@, final(self).username_index@),
            r@ == credential_id_spec(issuer@, subject@, cred_type@, data@),
            final(self).username_index@ == old(self).username_index@,
            lookup(old(self).identities@, subject@) is None ==> final(self).identities@ == old(self).identities@,
            lookup(old(self).identities@, subject@) is Some ==> exists|i: int| credential_filed(old(self).identities@,
                final(self).identities@, i, r@, issuer@, subject@, cred_type@, data@, expires_at, issued_at),
    {
        let mut payload = String::new();
        payload.append(issuer);
        payload.append(subject);
        payload.append(cred_type);
        payload.append(data);
        let cred_id = sha256_hex(payload.as_str().as_bytes());
        let cred = VerifiableCredential {
            id: cred_id.clone(),
            issuer: issuer.to_owned(),
            subject: subject.to_owned(),
            credential_type: cred_type.to_owned(),
            data_hash: sha256_hex(data.as_bytes()),
            issued_at,
            expires_at,
            revoked: false,
        };
        let ghost s = self.identities@;
        match self.identities.find(subject) {
            None => {
                proof { lemma_names_kept_refl(s, self.username_index@); }
            },
            Some(i) => {
                proof { lemma_lookup_at(s, i as int); }
                let mut doc = self.identities.value_at(i).copy();
                let ghost before = doc.credentials@;
                doc.credentials.push(cred);
                assert(doc.credentials@.drop_last() =~= before);
                self.identities.set_value_at(i, doc);
                assert(key_at(s, subject@, i as int));
                assert(credential_filed(s, self.identities@, i as int, cred_id@, issuer@, subject@, cred_type@, data@,
                    expires_at, issued_at));
                proof {
                    assert forall|j: int| 0 <= j < s.len() implies (#[trigger] self.identities@[j]).0 == s[j].0
                        && self.identities@[j].1.username@ == s[j].1.username@
                        && self.identities@[j].1.controller@ == s[j].1.controller@ by {
                        if j != i {
                            assert(self.identities@[j] == s[j]);
                        }
                    }
                    lemma_update_keeps_names(s, self.identities@, self.username_index@);
                }
            },
        }
        cred_id
    }

    /// Issues a credential from `issuer` about `subject`, stamped with the
    /// current time, and files it with the subject's identity if there is one;
    /// returns its id.
    pub fn issue_credential(&mut self, issuer: &str, subject: &str, cred_type: &str, data: &str, expires_at: u64) -> (r: String)
        requires
            old(self).wf(),
        ensures
            final(self).wf(),
            names_kept(old(self).identities@, old(self).username_index@, final(self).identities@, final(self).username_index@),
            names_linked(old(self).identities@, old(self).username_index@) ==> names_linked(final(self).identities@, final(self).username_index@),
            r@ == credential_id_spec(issuer@, subject@, cred_type@, data@),
            final(self).username_index@ == old(self).username_index@,
            lookup(old(self).identities@, subject@) is None ==> final(self).identities@ == old(self).identities@,
            lookup(old(self).identities@, subject@) is Some ==> exists|i: int, t: u64| credential_filed(old(self).identities@,
                final(self).identities@, i, r@, issuer@, subject@, cred_type@, data@, expires_at, t),
    {
        let now = now_timestamp();
        self.issue_credential_at(issuer, subject, cred_type, data, expires_at, now)
    }

    /// Marks the first credential `cred_id` of `subject` revoked.
    pub fn revoke_credential(&mut self, subject: &str, cred_id: &str)
        requires
            old(self).wf(),
        ensures
            final(self).wf(),
            names_kept(old(self).identities@, old(self).username_index@, final(self).identities@, final(self).username_index@),
            names_linked(old(self).identities@, old(self).username_index@) ==> names_linked(final(self).identities@, final(self).username_index@),
            final(self).username_index@ == old(self).username_index@,
            final(self).identities@.len() == old(self).identities@.len(),
            forall|j: int| 0 <= j < old(self).identities@.len() && old(self).identities@[j].0 != subject@
                ==> #[trigger] final(self).identities@[j] == old(self).identities@[j],
            forall|j: int| 0 <= j < old(self).identities@.len() && old(self).identities@[j].0 == subject@ ==> {
                let d = old(self).identities@[j].1;
                let f = #[trigger] final(self).identities@[j];
                &&& f.0 == subject@
                &&& same_doc_except_credentials(f.1, d)
                &&& f.1.credentials@.len() == d.credentials@.len()
                &&& forall|k: int| 0 <= k < d.credentials@.len() ==> #[trigger] f.1.credentials@[k] == (
                    if d.credentials@[k].id@ == cred_id@ && (forall|m: int| 0 <= m < k ==> d.credentials@[m].id@ != cred_id@) {
                        VerifiableCredential { revoked: true, ..d.credentials@[k] }
                    } else {
                        d.credentials@[k]
                    })
            },
    {
        let ghost s = self.identities@;
        match self.identities.find(subject) {
            None => {
                assert forall|j: int| 0 <= j < s.len() implies s[j].0 != subject@ by {
                    assert(!key_at(s, subject@, j));
                }
                proof { lemma_names_kept_refl(s, self.username_index@); }
            },
            Some(i) => {
                proof { lemma_lookup_at(s, i as int); }
                let mut doc = self.identities.value_at(i).copy();
                let ghost d = s[i as int].1;
                assert(doc.credentials@ == d.credentials@);
                let fk = first_credential(&doc.credentials, cred_id);
                match fk {
                    Some(k) => {
                        let mut c = doc.credentials[k].copy();
                        c.revoked = true;
                        doc.credentials.set(k, c);
                    },
                    None => {},
                }
                assert forall|k2: int| 0 <= k2 < d.credentials@.len() implies #[trigger] doc.credentials@[k2] == (
                    if d.credentials@[k2].id@ == cred_id@ && (forall|m: int| 0 <= m < k2 ==> d.credentials@[m].id@ != cred_id@) {
                        VerifiableCredential { revoked: true, ..d.credentials@[k2] }
                    } else {
                        d.credentials@[k2]
                    }) by {
                    match fk {
                        Some(k) => {
                            if k2 > k {
                                assert(d.credentials@[k as int].id@ == cred_id@);
                            }
                        },
                        None => {},
                    }
                }
                let ghost docv = doc;
                self.identities.set_value_at(i, doc);
                assert forall|j: int| 0 <= j < s.len() && s[j].0 == subject@ implies {
                    let d2 = s[j].1;
                    let f = #[trigger] self.identities@[j];
                    &&& f.0 == subject@
                    &&& same_doc_except_credentials(f.1, d2)
                    &&& f.1.credentials@.len() == d2.credentials@.len()
                    &&& forall|k: int| 0 <= k < d2.credentials@.len() ==> #[trigger] f.1.credentials@[k] == (
                        if d2.credentials@[k].id@ == cred_id@ && (forall|m: int| 0 <= m < k ==> d2.credentials@[m].id@ != cred_id@) {
                            VerifiableCredential { revoked: true, ..d2.credentials@[k] }
                        } else {
                            d2.credentials@[k]
                        })
                } by {
                    if j != i {
                        assert(s[j].0 != s[i as int].0);
                    }
                    assert(self.identities@[j].1 == docv);
                }
                proof {
                    assert forall|j: int| 0 <= j < s.len() implies (#[trigger] self.identities@[j]).0 == s[j].0
                        && self.identities@[j].1.username@ == s[j].1.username@
                        && self.identities@[j].1.controller@ == s[j].1.controller@ by {
                        if j != i {
                            assert(self.identities@[j] == s[j]);
                        } else {
                            assert(self.identities@[j].1 == docv);
                        }
                    }
                    lemma_update_keeps_names(s, self.identities@, self.username_index@);
                }
            },
        }
    }
}

// ── Laws ─────────────────────────────────────────────────────────────────────

/// A username, once taken, is taken: the index then holds it.
pub proof fn law_username_taken(names: Seq<(Seq<char>, String)>, username: Seq<char>, address: String)
    ensures
        has_key(names.push((username, address)), username),
{
    assert(key_at(names.push((username, address)), username, names.len() as int));
}

/// After a username is registered to an address (fresh on both sides), it
/// resolves to the document filed under that address.
pub proof fn law_username_resolves(
    ids: Seq<(Seq<char>, DIDDocument)>,
    names: Seq<(Seq<char>, String)>,
    address: String,
    username: Seq<char>,
    doc: DIDDocument,
)
    requires
        crate::strmap::keys_distinct(ids),
        crate::strmap::keys_distinct(names),
        !has_key(ids, address@),
        !has_key(names, username),
    ensures
        lookup(names.push((username, address)), username) == Some(address),
        lookup(ids.push((address@, doc)), address@) == Some(doc),
{
    crate::strmap::lemma_push_fresh(names, username, address);
    crate::strmap::lemma_push_fresh(ids, address@, doc);
}

/// An unchanged registry keeps its names.
proof fn lemma_names_kept_refl(ids: Seq<(Seq<char>, DIDDocument)>, names: Seq<(Seq<char>, String)>)
    ensures
        names_kept(ids, names, ids, names),
{
}

/// Changing identities in place (same keys, usernames and controllers) with
/// the index untouched keeps every name and its link.
proof fn lemma_update_keeps_names(
    ids0: Seq<(Seq<char>, DIDDocument)>,
    ids1: Seq<(Seq<char>, DIDDocument)>,
    names: Seq<(Seq<char>, String)>,
)
    requires
        crate::strmap::keys_distinct(ids0),
        crate::strmap::keys_distinct(ids1),
        ids1.len() == ids0.len(),
        forall|j: int| 0 <= j < ids0.len() ==> (#[trigger] ids1[j]).0 == ids0[j].0
            && ids1[j].1.username@ == ids0[j].1.username@ && ids1[j].1.controller@ == ids0[j].1.controller@,
    ensures
        names_kept(ids0, names, ids1, names),
        names_linked(ids0, names) ==> names_linked(ids1, names),
{
    assert forall|a: Seq<char>| #[trigger] lookup(ids0, a) is Some implies (lookup(ids1, a) is Some
        && lookup(ids1, a)->0.username@ == lookup(ids0, a)->0.username@
        && lookup(ids1, a)->0.controller@ == lookup(ids0, a)->0.controller@) by {
        let j = choose|j: int| key_at(ids0, a, j);
        lemma_lookup_at(ids0, j);
        assert(ids1[j].0 == ids0[j].0);
        lemma_lookup_at(ids1, j);
    }
    if names_linked(ids0, names) {
        assert forall|u: Seq<char>| #[trigger] lookup(names, u) is Some implies (lookup(ids1, lookup(names, u)->0@) is Some
            && lookup(ids1, lookup(names, u)->0@)->0.username@ == u
            && lookup(ids1, lookup(names, u)->0@)->0.controller@ == lookup(names, u)->0@) by {
            let a = lookup(names, u)->0;
            let j = choose|j: int| key_at(ids0, a@, j);
            lemma_lookup_at(ids0, j);
            assert(ids1[j].0 == ids0[j].0);
            lemma_lookup_at(ids1, j);
        }
    }
}

/// Filing a new identity under a fresh address and a fresh username keeps
/// every name and link, and links the new username to the new identity.
proof fn lemma_create_keeps_names(
    ids0: Seq<(Seq<char>, DIDDocument)>,
    ids1: Seq<(Seq<char>, DIDDocument)>,
    names0: Seq<(Seq<char>, String)>,
    names1: Seq<(Seq<char>, String)>,
    address: Seq<char>,
    username: Seq<char>,
    display_name: Seq<char>,
    bio: Seq<char>,
    avatar_cid: Seq<char>,
    created_at: u64,
)
    requires
        crate::strmap::keys_distinct(ids0),
        crate::strmap::keys_distinct(names0),
        !has_key(ids0, address),
        !has_key(names0, username),
        identity_filed(ids0, ids1, names0, names1, address, username, display_name, bio, avatar_cid, created_at),
    ensures
        names_kept(ids0, names0, ids1, names1),
        names_linked(ids0, names0) ==> names_linked(ids1, names1),
        lookup(names1, username) matches Some(a) && a@ == address,
{
    assert(ids1 =~= ids0.push((address, ids1.last().1)));
    assert(names1 =~= names0.push((username, names1.last().1)));
    crate::strmap::lemma_push_fresh(ids0, address, ids1.last().1);
    crate::strmap::lemma_push_fresh(names0, username, names1.last().1);
    assert forall|a: Seq<char>| #[trigger] lookup(ids0, a) is Some implies (lookup(ids1, a) is Some
        && lookup(ids1, a)->0.username@ == lookup(ids0, a)->0.username@
        && lookup(ids1, a)->0.controller@ == lookup(ids0, a)->0.controller@) by {
        assert(a != address);
    }
    assert forall|u: Seq<char>| #[trigger] lookup(names0, u) is Some implies lookup(names1, u) == lookup(names0, u) by {
        assert(u != username);
    }
    if names_linked(ids0, names0) {
        assert forall|u: Seq<char>| #[trigger] lookup(names1, u) is Some implies (lookup(ids1, lookup(names1, u)->0@) is Some
            && lookup(ids1, lookup(names1, u)->0@)->0.username@ == u
            && lookup(ids1, lookup(names1, u)->0@)->0.controller@ == lookup(names1, u)->0@) by {
            if u != username {
                let a = lookup(names0, u)->0;
                assert(lookup(ids0, a@) is Some);
                assert(a@ != address);
            }
        }
    }
}

/// A username keeps resolving: once the index holds it for an address, every
/// later registry state (each operation keeps the names, and the names stay
/// linked) resolves it to the identity filed under that address, which
/// carries that username and is controlled by that address.
pub proof fn law_username_keeps_resolving(
    ids0: Seq<(Seq<char>, DIDDocument)>,
    names0: Seq<(Seq<char>, String)>,
    ids1: Seq<(Seq<char>, DIDDocument)>,
    names1: Seq<(Seq<char>, String)>,
    username: Seq<char>,
    address: String,
)
    requires
        lookup(names0, username) == Some(address),
        names_kept(ids0, names0, ids1, names1),
        names_linked(ids1, names1),
    ensures
        lookup(names1, username) == Some(address),
        lookup(ids1, address@) matches Some(d) && d.username@ == username && d.controller@ == address@,
{
    assert(lookup(names0, username) is Some);
}

/// Keeping names composes: a state reached through several operations keeps
/// the names of every earlier state.
pub proof fn law_names_kept_compose(
    ids0: Seq<(Seq<char>, DIDDocument)>,
    names0: Seq<(Seq<char>, String)>,
    ids1: Seq<(Seq<char>, DIDDocument)>,
    names1: Seq<(Seq<char>, String)>,
    ids2: Seq<(Seq<char>, DIDDocument)>,
    names2: Seq<(Seq<char>, String)>,
)
    requires
        names_kept(ids0, names0, ids1, names1),
        names_kept(ids1, names1, ids2, names2),
    ensures
        names_kept(ids0, names0, ids2, names2),
{
    assert forall|u: Seq<char>| #[trigger] lookup(names0, u) is Some implies lookup(names2, u) == lookup(names0, u) by {
        assert(lookup(names1, u) is Some);
    }
    assert forall|a: Seq<char>| #[trigger] lookup(ids0, a) is Some implies (lookup(ids2, a) is Some
        && lookup(ids2, a)->0.username@ == lookup(ids0, a)->0.username@
        && lookup(ids2, a)->0.controller@ == lookup(ids0, a)->0.controller@) by {
        assert(lookup(ids1, a) is Some);
    }
}

/// One registry state to the next in a history keeps the names.
pub open spec fn kept_step(hist: Seq<(Seq<(Seq<char>, DIDDocument)>, Seq<(Seq<char>, String)>)>, i: int) -> bool {
    names_kept(hist[i].0, hist[i].1, hist[i + 1].0, hist[i + 1].1)
}

/// One registry state to the next in a history leaves the username index as
/// it is or appends one username to it (as `create` does).
pub open spec fn index_step(hist: Seq<(Seq<(Seq<char>, DIDDocument)>, Seq<(Seq<char>, String)>)>, i: int) -> bool {
    ||| hist[i + 1].1 == hist[i].1
    ||| (hist[i + 1].1.len() == hist[i].1.len() + 1 && hist[i + 1].1.drop_last() == hist[i].1)
}

proof fn lemma_kept_along(hist: Seq<(Seq<(Seq<char>, DIDDocument)>, Seq<(Seq<char>, String)>)>, k: int, j: int)
    requires
        0 <= k <= j < hist.len(),
        forall|i: int| 0 <= i < hist.len() - 1 ==> #[trigger] kept_step(hist, i),
    ensures
        names_kept(hist[k].0, hist[k].1, hist[j].0, hist[j].1),
    decreases j - k,
{
    if k == j {
        lemma_names_kept_refl(hist[k].0, hist[k].1);
    } else {
        lemma_kept_along(hist, k, j - 1);
        assert(kept_step(hist, j - 1));
        law_names_kept_compose(hist[k].0, hist[k].1, hist[j - 1].0, hist[j - 1].1, hist[j].0, hist[j].1);
    }
}

/// Usernames round-trip over any history of registry states in which every
/// step keeps the names (as each operation of the registry states) and the
/// last state has its names linked: a username indexed for an address at
/// any step resolves at the end to the identity filed under that address,
/// which carries that username and that controller.
pub proof fn law_username_round_trip(
    hist: Seq<(Seq<(Seq<char>, DIDDocument)>, Seq<(Seq<char>, String)>)>,
    k: int,
    username: Seq<char>,
    address: String,
)
    requires
        0 <= k < hist.len(),
        forall|i: int| 0 <= i < hist.len() - 1 ==> #[trigger] kept_step(hist, i),
        names_linked(hist.last().0, hist.last().1),
        lookup(hist[k].1, username) == Some(address),
    ensures
        lookup(hist.last().1, username) == Some(address),
        lookup(hist.last().0, address@) matches Some(d) && d.username@ == username && d.controller@ == address@,
{
    lemma_kept_along(hist, k, hist.len() - 1);
    law_username_keeps_resolving(hist[k].0, hist[k].1, hist.last().0, hist.last().1, username, address);
}

/// A username is indexed only by a step that appended it: over a history
/// that starts with an empty index and whose every step leaves the index as
/// it is or appends one username, any username indexed at the end was
/// appended by some step (so a username never passed to a successful
/// `create` resolves to nothing).
pub proof fn law_indexed_name_was_appended(
    hist: Seq<(Seq<(Seq<char>, DIDDocument)>, Seq<(Seq<char>, String)>)>,
    username: Seq<char>,
)
    requires
        hist.len() >= 1,
        hist[0].1.len() == 0,
        forall|i: int| 0 <= i < hist.len() - 1 ==> #[trigger] index_step(hist, i),
        has_key(hist.last().1, username),
    ensures
        exists|i: int| 0 <= i < hist.len() - 1 && hist[i + 1].1.len() == hist[i].1.len() + 1
            && #[trigger] hist[i + 1].1.last().0 == username,
    decreases hist.len(),
{
    let n = hist.len();
    if n == 1 {
        let j = choose|j: int| key_at(hist[0].1, username, j);
        assert(false);
    } else {
        let prev = hist.drop_last();
        assert(index_step(hist, n - 2));
        let before = hist[n - 2].1;
        let after = hist[n - 1].1;
        if after == before {
            assert forall|i: int| 0 <= i < prev.len() - 1 implies #[trigger] index_step(prev, i) by {
                assert(index_step(hist, i));
            }
            law_indexed_name_was_appended(prev, username);
            let i = choose|i: int| 0 <= i < prev.len() - 1 && prev[i + 1].1.len() == prev[i].1.len() + 1
                && #[trigger] prev[i + 1].1.last().0 == username;
            assert(hist[i + 1] == prev[i + 1] && hist[i] == prev[i]);
        } else {
            assert(after.len() == before.len() + 1 && after.drop_last() == before);
            if after.last().0 == username {
                assert(hist[(n - 2) + 1].1.last().0 == username);
            } else {
                let j = choose|j: int| key_at(after, username, j);
                assert(j < before.len());
                assert(key_at(before, username, j)) by {
                    assert(before[j] == after.drop_last()[j]);
                }
                assert forall|i: int| 0 <= i < prev.len() - 1 implies #[trigger] index_step(prev, i) by {
                    assert(index_step(hist, i));
                }
                assert(prev.last().1 == before);
                law_indexed_name_was_appended(prev, username);
                let i = choose|i: int| 0 <= i < prev.len() - 1 && prev[i + 1].1.len() == prev[i].1.len() + 1
                    && #[trigger] prev[i + 1].1.last().0 == username;
                assert(hist[i + 1] == prev[i + 1] && hist[i] == prev[i]);
            }
        }
    }
}

} // verus!
