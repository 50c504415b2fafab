//! A content-addressed release registry: immutable artifacts keyed by an
//! identifier made of a version and the SHA-256 checksum of the artifact,
//! with a status log (released or yanked) and a latest pointer.
use vstd::prelude::*;

use crate::id::error::IdError;
use crate::id::{
    id_of, id_text, is_id_parse, is_version_parse, version_of, Checksum, Id, IdStatus, IdView,
    CHECKSUM_LEN,
};
use crate::storage::{
    empty_ledger, inserted, opt_id_view, opt_status_view, removal_result, removed, status_of,
    status_views, id_views, LedgerView, ReleaseStorage,
};

pub mod id;
pub mod storage;
pub mod text;

verus! {

/// Release data stored in the database.
#[derive(Debug)]
pub struct ReleaseData(pub Vec<u8>);

impl View for ReleaseData {
    type V = Seq<u8>;

    open spec fn view(&self) -> Seq<u8> {
        self.0@
    }
}

impl Clone for ReleaseData {
    fn clone(&self) -> (r: Self)
        ensures
            r@ == self@,
    {
        ReleaseData(self.0.clone())
    }
}

/// Why a registry call failed.
#[derive(Debug)]
pub enum Error {
    /// The identifier or version text is malformed.
    IdError(IdError),
    /// The caller is not the owner: access denied to an owner's method.
    AccessDenied,
}

/// The SHA-256 digest of some bytes.
pub uninterp spec fn sha256_of(data: Seq<u8>) -> Seq<u8>;

/// Relies on `near_sdk::env::sha256`: the SHA-256 digest of the bytes, a
/// function of the bytes alone and 32 bytes long.
#[verifier::external_body]
fn sha256(data: &Vec<u8>) -> (r: Vec<u8>)
    ensures
        r@ == sha256_of(data@),
        r@.len() == CHECKSUM_LEN,
{
    near_sdk::env::sha256(data)
}

/// The bytes stored under `id`, if any.
pub open spec fn lookup(ledger: LedgerView, id: IdView) -> Option<Seq<u8>> {
    if ledger.releases.contains_key(id) {
        Some(ledger.releases[id])
    } else {
        None
    }
}

pub open spec fn opt_bytes_view(o: Option<Vec<u8>>) -> Option<Seq<u8>> {
    match o {
        Some(b) => Some(b@),
        None => None,
    }
}

/// The registry's contents: the ledger and the owner's account.
pub struct StateView {
    pub ledger: LedgerView,
    pub owner: Seq<char>,
}

/// The outcome of a push by `caller` of `code` with the text `version` and
/// the checksum `checksum`: refused unless the caller is the owner, then
/// refused when the version is malformed; otherwise the release is inserted
/// and its identifier's text returned, which parses back to that identifier.
pub open spec fn is_push(
    before: StateView,
    after: StateView,
    caller: Seq<char>,
    version: Seq<char>,
    checksum: Seq<u8>,
    code: Seq<u8>,
    latest: bool,
    r: Result<String, Error>,
) -> bool {
    if caller != before.owner {
        r matches Err(Error::AccessDenied) && after == before
    } else {
        match version_of(version) {
            None => after == before && match r {
                Err(Error::IdError(IdError::Version(e))) => is_version_parse(version, Err(e)),
                _ => false,
            },
            Some(v) => {
                let id = IdView { version: v, checksum };
                &&& after == StateView {
                    ledger: inserted(before.ledger, id, code, latest),
                    owner: before.owner,
                }
                &&& r matches Ok(text) && text@ == id_text(id) && id_of(text@) == Some(id)
            },
        }
    }
}

/// `r` is `Err(Error::IdError(e))` for the parse error `e` that the text
/// `id` gives.
pub open spec fn is_id_error<T>(id: Seq<char>, r: Result<T, Error>) -> bool {
    match r {
        Err(Error::IdError(e)) => is_id_parse(id, Err(e)),
        _ => false,
    }
}

/// The registry: the ledger and the account of its owner.
#[derive(Clone)]
pub struct State {
    storage: ReleaseStorage,
    owner_id: String,
}

impl View for State {
    type V = StateView;

    closed spec fn view(&self) -> StateView {
        StateView { ledger: self.storage@, owner: self.owner_id@ }
    }
}

impl State {
    pub closed spec fn wf(&self) -> bool {
        self.storage.wf()
    }

    #[must_use]
    pub fn new(owner_id: String) -> (r: Self)
        ensures
            r.wf(),
            r@ == (StateView { ledger: empty_ledger(), owner: owner_id@ }),
    {
        Self { storage: ReleaseStorage::new(), owner_id }
    }

    /// Whether `caller` is the owner's account.
    #[must_use]
    pub fn is_owner(&self, caller: &str) -> (r: bool)
        ensures
            r == (caller@ == self@.owner),
    {
        let caller = caller.to_owned();
        self.owner_id == caller
    }

    /// Pushes a new release of `code`: its checksum is the SHA-256 digest of
    /// `code`. Returns the new identifier's text.
    pub fn push(&mut self, caller: &str, version: String, code: Vec<u8>, latest: bool) -> (r:
        Result<String, Error>)
        requires
            old(self).wf(),
        ensures
            final(self).wf(),
            sha256_of(code@).len() == CHECKSUM_LEN,
            is_push(old(self)@, final(self)@, caller@, version@, sha256_of(code@), code@, latest, r),
    {
        let checksum = Checksum(sha256(&code));
        self.push_with_checksum(caller, version, checksum, code, latest)
    }

    /// Pushes a new release of `code` whose checksum is `checksum`. Returns
    /// the new identifier's text.
    pub fn push_with_checksum(
        &mut self,
        caller: &str,
        version: String,
        checksum: Checksum,
        code: Vec<u8>,
        latest: bool,
    ) -> (r: Result<String, Error>)
        requires
            old(self).wf(),
            checksum@.len() == CHECKSUM_LEN,
        ensures
            final(self).wf(),
            is_push(old(self)@, final(self)@, caller@, version@, checksum@, code@, latest, r),
    {
        if !self.is_owner(caller) {
            return Err(Error::AccessDenied);
        }
        let version = match id::Version::try_from(version) {
            Ok(v) => v,
            Err(e) => return Err(Error::IdError(IdError::Version(e))),
        };
        let id = Id::new(version, checksum);
        let text = id.to_string();
        proof {
            id::lemma_id_round_trip(id@);
        }
        self.storage.insert(id, &ReleaseData(code), latest);
        Ok(text)
    }

    /// Yanks the release named by the text `id`.
    pub fn pull(&mut self, caller: &str, id: String) -> (r: Result<Option<IdStatus>, Error>)
        requires
            old(self).wf(),
        ensures
            final(self).wf(),
            caller@ != old(self)@.owner ==> (r matches Err(Error::AccessDenied)) && final(self)@
                == old(self)@,
            caller@ == old(self)@.owner ==> match id_of(id@) {
                None => is_id_error(id@, r) && final(self)@ == old(self)@,
                Some(i) => {
                    &&& final(self)@ == StateView {
                        ledger: removed(old(self)@.ledger, i),
                        owner: old(self)@.owner,
                    }
                    &&& r matches Ok(o) && opt_status_view(o) == removal_result(
                        old(self)@.ledger,
                        i,
                    )
                },
            },
    {
        if !self.is_owner(caller) {
            return Err(Error::AccessDenied);
        }
        let id = match Id::try_from(id) {
            Ok(i) => i,
            Err(e) => return Err(Error::IdError(e)),
        };
        Ok(self.storage.remove(&id))
    }

    /// The status of the release named by the text `id`.
    #[must_use]
    pub fn get_status(&self, id: String) -> (r: Result<Option<IdStatus>, Error>)
        ensures
            match id_of(id@) {
                None => is_id_error(id@, r),
                Some(i) => r matches Ok(o) && opt_status_view(o) == status_of(
                    self@.ledger.status_list,
                    i,
                ),
            },
    {
        let id = match Id::try_from(id) {
            Ok(i) => i,
            Err(e) => return Err(Error::IdError(e)),
        };
        Ok(self.storage.get_status(id))
    }

    /// The artifact bytes of the release named by the text `id`.
    #[must_use]
    pub fn get_blob(&self, id: String) -> (r: Result<Option<Vec<u8>>, Error>)
        requires
            self.wf(),
        ensures
            match id_of(id@) {
                None => is_id_error(id@, r),
                Some(i) => r matches Ok(o) && opt_bytes_view(o) == lookup(self@.ledger, i),
            },
    {
        let id = match Id::try_from(id) {
            Ok(i) => i,
            Err(e) => return Err(Error::IdError(e)),
        };
        match self.storage.get(&id) {
            Some(data) => Ok(Some(data.0)),
            None => Ok(None),
        }
    }

    /// Lists all releases, in order of insertion.
    #[must_use]
    pub fn list(self) -> (r: Vec<IdStatus>)
        ensures
            status_views(r@) == self@.ledger.status_list,
    {
        self.storage.list()
    }

    /// Lists all yanked releases, in order of withdrawal.
    #[must_use]
    pub fn yank_list(self) -> (r: Vec<Id>)
        ensures
            id_views(r@) == self@.ledger.yanked_list,
    {
        self.storage.yanks()
    }

    /// The latest release, if one was ever pushed as latest.
    #[must_use]
    pub fn latest(&self) -> (r: Option<Id>)
        ensures
            opt_id_view(r) == self@.ledger.latest,
    {
        self.storage.latest()
    }
}

} // verus!
