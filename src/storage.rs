//! The release ledger: artifact bytes by identifier, the status log in order
//! of insertion, the identifiers withdrawn so far, and the latest pointer.
use vstd::prelude::*;

use crate::id::{Id, IdStatus, IdStatusView, IdView, Status, CHECKSUM_LEN};
use crate::ReleaseData;

verus! {

// ---------------------------------------------------------------------------
// The ledger as a value
// ---------------------------------------------------------------------------

/// The contents of a ledger.
pub struct LedgerView {
    /// Artifact bytes of the releases not withdrawn.
    pub releases: Map<IdView, Seq<u8>>,
    /// One entry per insertion, in order; a withdrawal rewrites an entry's status in place.
    pub status_list: Seq<IdStatusView>,
    /// The identifiers withdrawn, in order of withdrawal.
    pub yanked_list: Seq<IdView>,
    /// The identifier last inserted as latest.
    pub latest: Option<IdView>,
}

pub open spec fn empty_ledger() -> LedgerView {
    LedgerView {
        releases: Map::empty(),
        status_list: Seq::empty(),
        yanked_list: Seq::empty(),
        latest: None,
    }
}

/// Position of the first entry of the log that names `id`.
pub open spec fn find(log: Seq<IdStatusView>, id: IdView) -> Option<nat>
    decreases log.len(),
{
    if log.len() == 0 {
        None
    } else if log[0].id == id {
        Some(0)
    } else {
        match find(log.drop_first(), id) {
            Some(k) => Some(k + 1),
            None => None,
        }
    }
}

/// The first entry of the log that names `id`.
pub open spec fn status_of(log: Seq<IdStatusView>, id: IdView) -> Option<IdStatusView> {
    match find(log, id) {
        Some(k) => Some(log[k as int]),
        None => None,
    }
}

/// The ledger after inserting `code` under `id`.
pub open spec fn inserted(s: LedgerView, id: IdView, code: Seq<u8>, latest: bool) -> LedgerView {
    LedgerView {
        releases: s.releases.insert(id, code),
        status_list: s.status_list.push(IdStatusView { id, status: Status::Released }),
        yanked_list: s.yanked_list,
        latest: if latest {
            Some(id)
        } else {
            s.latest
        },
    }
}

/// The ledger after withdrawing `id`: its bytes go; its first log entry, if
/// any, becomes `Yanked` and `id` joins the withdrawn list.
pub open spec fn removed(s: LedgerView, id: IdView) -> LedgerView {
    match find(s.status_list, id) {
        Some(k) => LedgerView {
            releases: s.releases.remove(id),
            status_list: s.status_list.update(k as int, IdStatusView { id, status: Status::Yanked }),
            yanked_list: s.yanked_list.push(id),
            latest: s.latest,
        },
        None => LedgerView {
            releases: s.releases.remove(id),
            status_list: s.status_list,
            yanked_list: s.yanked_list,
            latest: s.latest,
        },
    }
}

/// What withdrawing `id` reports: the rewritten entry, or nothing when the
/// log does not name `id`.
pub open spec fn removal_result(s: LedgerView, id: IdView) -> Option<IdStatusView> {
    match find(s.status_list, id) {
        Some(_) => Some(IdStatusView { id, status: Status::Yanked }),
        None => None,
    }
}

pub open spec fn id_views(v: Seq<Id>) -> Seq<IdView> {
    v.map_values(|i: Id| i@)
}

pub open spec fn status_views(v: Seq<IdStatus>) -> Seq<IdStatusView> {
    v.map_values(|s: IdStatus| s@)
}

pub open spec fn opt_id_view(o: Option<Id>) -> Option<IdView> {
    match o {
        Some(i) => Some(i@),
        None => None,
    }
}

pub open spec fn opt_status_view(o: Option<IdStatus>) -> Option<IdStatusView> {
    match o {
        Some(s) => Some(s@),
        None => None,
    }
}

/// `find` gives the first position that names `id`, or nothing when none does.
pub proof fn lemma_find(log: Seq<IdStatusView>, id: IdView)
    ensures
        match find(log, id) {
            Some(k) => k < log.len() && log[k as int].id == id && forall|j: int|
                0 <= j < k ==> #[trigger] log[j].id != id,
            None => forall|j: int| 0 <= j < log.len() ==> #[trigger] log[j].id != id,
        },
    decreases log.len(),
{
    if log.len() > 0 && log[0].id != id {
        let rest = log.drop_first();
        lemma_find(rest, id);
        match find(rest, id) {
            Some(k) => {
                assert forall|j: int| 0 <= j < k + 1 implies #[trigger] log[j].id != id by {
                    if j > 0 {
                        assert(log[j] == rest[j - 1]);
                    }
                }
            },
            None => {
                assert forall|j: int| 0 <= j < log.len() implies #[trigger] log[j].id != id by {
                    if j > 0 {
                        assert(log[j] == rest[j - 1]);
                    }
                }
            },
        }
    }
}

// ---------------------------------------------------------------------------
// Invariants of the ledger
// ---------------------------------------------------------------------------

/// The log names `id` somewhere.
pub open spec fn logged(log: Seq<IdStatusView>, id: IdView) -> bool {
    exists|i: int| 0 <= i < log.len() && #[trigger] log[i].id == id
}

/// What every reachable ledger satisfies: each stored artifact is named in
/// the status log; each withdrawn identifier's status reads `Yanked`; and a
/// `Yanked` entry is the first for its identifier, which is among the
/// withdrawn ones.
pub open spec fn ledger_invariant(s: LedgerView) -> bool {
    &&& forall|k: IdView| #[trigger] s.releases.contains_key(k) ==> logged(s.status_list, k)
    &&& forall|j: int|
        0 <= j < s.yanked_list.len() ==> status_of(s.status_list, #[trigger] s.yanked_list[j])
            == Some(IdStatusView { id: s.yanked_list[j], status: Status::Yanked })
    &&& forall|i: int|
        0 <= i < s.status_list.len() && (#[trigger] s.status_list[i]).status == Status::Yanked
            ==> s.yanked_list.contains(s.status_list[i].id) && find(s.status_list, s.status_list[i].id)
            == Some(i as nat)
}

/// `find` looks at identifiers only.
pub proof fn lemma_find_same_ids(a: Seq<IdStatusView>, b: Seq<IdStatusView>, id: IdView)
    requires
        a.len() == b.len(),
        forall|i: int| 0 <= i < a.len() ==> #[trigger] a[i].id == b[i].id,
    ensures
        find(a, id) == find(b, id),
    decreases a.len(),
{
    if a.len() > 0 {
        assert(a[0].id == b[0].id);
        assert forall|i: int| 0 <= i < a.len() - 1 implies #[trigger] a.drop_first()[i].id
            == b.drop_first()[i].id by {
            assert(a[i + 1].id == b[i + 1].id);
        }
        lemma_find_same_ids(a.drop_first(), b.drop_first(), id);
    }
}

/// Appending an entry does not move the first entry of an identifier
/// already named.
pub proof fn lemma_find_push(log: Seq<IdStatusView>, e: IdStatusView, id: IdView)
    ensures
        find(log, id) is Some ==> find(log.push(e), id) == find(log, id),
        find(log, id) is None ==> find(log.push(e), id) == if e.id == id {
            Some(log.len())
        } else {
            None
        },
{
    let l2 = log.push(e);
    lemma_find(log, id);
    lemma_find(l2, id);
    match find(l2, id) {
        Some(k2) => {
            if k2 < log.len() {
                assert(l2[k2 as int] == log[k2 as int]);
            }
            match find(log, id) {
                Some(k) => {
                    assert(l2[k as int] == log[k as int]);
                },
                None => {},
            }
        },
        None => {
            match find(log, id) {
                Some(k) => {
                    assert(l2[k as int] == log[k as int]);
                },
                None => {
                    assert(l2[log.len() as int] == e);
                },
            }
        },
    }
}

pub proof fn lemma_empty_invariant()
    ensures
        ledger_invariant(empty_ledger()),
{
}

/// Insertion keeps the ledger invariant.
pub proof fn lemma_inserted_invariant(s: LedgerView, id: IdView, code: Seq<u8>, latest: bool)
    requires
        ledger_invariant(s),
    ensures
        ledger_invariant(inserted(s, id, code, latest)),
{
    let t = inserted(s, id, code, latest);
    let e = IdStatusView { id, status: Status::Released };
    assert(t.status_list == s.status_list.push(e));
    assert forall|k: IdView| #[trigger] t.releases.contains_key(k) implies logged(
        t.status_list,
        k,
    ) by {
        if k == id {
            assert(t.status_list[s.status_list.len() as int].id == k);
        } else {
            let i = choose|i: int| 0 <= i < s.status_list.len() && #[trigger] s.status_list[i].id
                == k;
            assert(t.status_list[i] == s.status_list[i]);
        }
    }
    assert forall|j: int| 0 <= j < t.yanked_list.len() implies status_of(
        t.status_list,
        #[trigger] t.yanked_list[j],
    ) == Some(IdStatusView { id: t.yanked_list[j], status: Status::Yanked }) by {
        let y = t.yanked_list[j];
        lemma_find_push(s.status_list, e, y);
        lemma_find(s.status_list, y);
        assert(status_of(s.status_list, y) == Some(IdStatusView { id: y, status: Status::Yanked }));
        let k = find(s.status_list, y).unwrap();
        assert(t.status_list[k as int] == s.status_list[k as int]);
    }
    assert forall|i: int|
        0 <= i < t.status_list.len() && (#[trigger] t.status_list[i]).status
            == Status::Yanked implies t.yanked_list.contains(t.status_list[i].id) && find(
        t.status_list,
        t.status_list[i].id,
    ) == Some(i as nat) by {
        assert(i < s.status_list.len());
        assert(t.status_list[i] == s.status_list[i]);
        lemma_find_push(s.status_list, e, s.status_list[i].id);
    }
}

/// Withdrawal keeps the ledger invariant.
pub proof fn lemma_removed_invariant(s: LedgerView, id: IdView)
    requires
        ledger_invariant(s),
    ensures
        ledger_invariant(removed(s, id)),
{
    let t = removed(s, id);
    lemma_find(s.status_list, id);
    lemma_remove_keeps_order(s, id);
    assert(t.status_list.len() == s.status_list.len());
    assert forall|i: int| 0 <= i < s.status_list.len() implies #[trigger] t.status_list[i].id
        == s.status_list[i].id by {
        assert(log_ids(t.status_list)[i] == log_ids(s.status_list)[i]);
    }
    assert forall|q: IdView| #[trigger] find(t.status_list, q) == find(s.status_list, q) by {
        lemma_find_same_ids(t.status_list, s.status_list, q);
    }
    assert forall|k: IdView| #[trigger] t.releases.contains_key(k) implies logged(
        t.status_list,
        k,
    ) by {
        let i = choose|i: int| 0 <= i < s.status_list.len() && #[trigger] s.status_list[i].id == k;
        assert(t.status_list[i].id == k);
    }
    match find(s.status_list, id) {
        None => {},
        Some(k) => {
            let yk = IdStatusView { id, status: Status::Yanked };
            assert forall|j: int| 0 <= j < t.yanked_list.len() implies status_of(
                t.status_list,
                #[trigger] t.yanked_list[j],
            ) == Some(IdStatusView { id: t.yanked_list[j], status: Status::Yanked }) by {
                let y = t.yanked_list[j];
                assert(find(t.status_list, y) == find(s.status_list, y));
                if j < s.yanked_list.len() {
                    assert(y == s.yanked_list[j]);
                    assert(status_of(s.status_list, y) == Some(
                        IdStatusView { id: y, status: Status::Yanked },
                    ));
                    lemma_find(s.status_list, y);
                }
            }
            assert forall|i: int|
                0 <= i < t.status_list.len() && (#[trigger] t.status_list[i]).status
                    == Status::Yanked implies t.yanked_list.contains(t.status_list[i].id) && find(
                t.status_list,
                t.status_list[i].id,
            ) == Some(i as nat) by {
                let q = t.status_list[i].id;
                assert(find(t.status_list, q) == find(s.status_list, q));
                if i == k {
                    assert(t.yanked_list[s.yanked_list.len() as int] == id);
                } else {
                    assert(t.status_list[i] == s.status_list[i]);
                    let j = choose|j: int| 0 <= j < s.yanked_list.len() && s.yanked_list[j] == q;
                    assert(t.yanked_list[j] == q);
                }
            }
        },
    }
}

// ---------------------------------------------------------------------------
// Artifact entries
// ---------------------------------------------------------------------------

spec fn entries_of(v: Seq<(Id, ReleaseData)>) -> Seq<(IdView, Seq<u8>)> {
    v.map_values(|e: (Id, ReleaseData)| (e.0@, e.1@))
}

spec fn has_key(e: Seq<(IdView, Seq<u8>)>, k: IdView) -> bool {
    exists|i: int| 0 <= i < e.len() && #[trigger] e[i].0 == k
}

spec fn entries_map(e: Seq<(IdView, Seq<u8>)>) -> Map<IdView, Seq<u8>> {
    Map::new(
        |k: IdView| has_key(e, k),
        |k: IdView| e[choose|i: int| 0 <= i < e.len() && #[trigger] e[i].0 == k].1,
    )
}

spec fn keys_unique(e: Seq<(IdView, Seq<u8>)>) -> bool {
    forall|i: int, j: int|
        0 <= i < e.len() && 0 <= j < e.len() && #[trigger] e[i].0 == #[trigger] e[j].0 ==> i == j
}

proof fn lemma_entry_lookup(e: Seq<(IdView, Seq<u8>)>, i: int)
    requires
        keys_unique(e),
        0 <= i < e.len(),
    ensures
        entries_map(e).contains_key(e[i].0),
        entries_map(e)[e[i].0] == e[i].1,
{
    let k = e[i].0;
    assert(has_key(e, k));
    let j = choose|j: int| 0 <= j < e.len() && #[trigger] e[j].0 == k;
    assert(j == i);
}

proof fn lemma_entry_replace(e: Seq<(IdView, Seq<u8>)>, i: int, v: Seq<u8>)
    requires
        keys_unique(e),
        0 <= i < e.len(),
    ensures
        keys_unique(e.update(i, (e[i].0, v))),
        entries_map(e.update(i, (e[i].0, v))) == entries_map(e).insert(e[i].0, v),
{
    let k = e[i].0;
    let f = e.update(i, (k, v));
    assert forall|a: int, b: int|
        0 <= a < f.len() && 0 <= b < f.len() && #[trigger] f[a].0 == #[trigger] f[b].0 implies a
        == b by {
        assert(f[a].0 == e[a].0 && f[b].0 == e[b].0);
    }
    assert forall|q: IdView| has_key(f, q) <==> has_key(e, q) by {
        if has_key(f, q) {
            let a = choose|a: int| 0 <= a < f.len() && #[trigger] f[a].0 == q;
            assert(e[a].0 == q);
        }
        if has_key(e, q) {
            let a = choose|a: int| 0 <= a < e.len() && #[trigger] e[a].0 == q;
            assert(f[a].0 == q);
        }
    }
    assert forall|q: IdView| #[trigger]
        entries_map(f).contains_key(q) implies entries_map(f)[q] == entries_map(e).insert(
        k,
        v,
    )[q] by {
        let a = choose|a: int| 0 <= a < f.len() && #[trigger] f[a].0 == q;
        lemma_entry_lookup(f, a);
        if q != k {
            assert(a != i);
            lemma_entry_lookup(e, a);
        }
    }
    assert(entries_map(f) =~= entries_map(e).insert(k, v));
}

proof fn lemma_entry_append(e: Seq<(IdView, Seq<u8>)>, k: IdView, v: Seq<u8>)
    requires
        keys_unique(e),
        !has_key(e, k),
    ensures
        keys_unique(e.push((k, v))),
        entries_map(e.push((k, v))) == entries_map(e).insert(k, v),
{
    let f = e.push((k, v));
    assert forall|a: int, b: int|
        0 <= a < f.len() && 0 <= b < f.len() && #[trigger] f[a].0 == #[trigger] f[b].0 implies a
        == b by {
        if a < e.len() && b == e.len() {
            assert(e[a].0 == k);
        }
        if b < e.len() && a == e.len() {
            assert(e[b].0 == k);
        }
    }
    assert forall|q: IdView| has_key(f, q) <==> (has_key(e, q) || q == k) by {
        if has_key(f, q) {
            let a = choose|a: int| 0 <= a < f.len() && #[trigger] f[a].0 == q;
            if a < e.len() {
                assert(e[a].0 == q);
            }
        }
        if has_key(e, q) {
            let a = choose|a: int| 0 <= a < e.len() && #[trigger] e[a].0 == q;
            assert(f[a].0 == q);
        }
        if q == k {
            assert(f[e.len() as int].0 == q);
        }
    }
    assert forall|q: IdView| #[trigger]
        entries_map(f).contains_key(q) implies entries_map(f)[q] == entries_map(e).insert(
        k,
        v,
    )[q] by {
        let a = choose|a: int| 0 <= a < f.len() && #[trigger] f[a].0 == q;
        lemma_entry_lookup(f, a);
        if q != k {
            assert(a < e.len());
            assert(e[a] == f[a]);
            lemma_entry_lookup(e, a);
        }
    }
    assert(entries_map(f) =~= entries_map(e).insert(k, v));
}

proof fn lemma_entry_remove(e: Seq<(IdView, Seq<u8>)>, i: int)
    requires
        keys_unique(e),
        0 <= i < e.len(),
    ensures
        keys_unique(e.remove(i)),
        entries_map(e.remove(i)) == entries_map(e).remove(e[i].0),
{
    let k = e[i].0;
    let f = e.remove(i);
    assert forall|a: int| 0 <= a < f.len() implies #[trigger] f[a] == e[if a < i {
        a
    } else {
        a + 1
    }] by {}
    assert forall|a: int, b: int|
        0 <= a < f.len() && 0 <= b < f.len() && #[trigger] f[a].0 == #[trigger] f[b].0 implies a
        == b by {
        let a1 = if a < i {
            a
        } else {
            a + 1
        };
        let b1 = if b < i {
            b
        } else {
            b + 1
        };
        assert(f[a] == e[a1] && f[b] == e[b1]);
    }
    assert forall|q: IdView| has_key(f, q) <==> (has_key(e, q) && q != k) by {
        if has_key(f, q) {
            let a = choose|a: int| 0 <= a < f.len() && #[trigger] f[a].0 == q;
            let a1 = if a < i {
                a
            } else {
                a + 1
            };
            assert(f[a] == e[a1]);
            assert(e[a1].0 == q);
        }
        if has_key(e, q) && q != k {
            let a = choose|a: int| 0 <= a < e.len() && #[trigger] e[a].0 == q;
            assert(a != i);
            if a < i {
                assert(f[a] == e[a]);
            } else {
                assert(f[a - 1] == e[a]);
            }
        }
    }
    assert forall|q: IdView| #[trigger]
        entries_map(f).contains_key(q) implies entries_map(f)[q] == entries_map(e).remove(
        k,
    )[q] by {
        let a = choose|a: int| 0 <= a < f.len() && #[trigger] f[a].0 == q;
        let a1 = if a < i {
            a
        } else {
            a + 1
        };
        assert(f[a] == e[a1]);
        lemma_entry_lookup(f, a);
        lemma_entry_lookup(e, a1);
    }
    assert(entries_map(f) =~= entries_map(e).remove(k));
}

// ---------------------------------------------------------------------------
// The ledger
// ---------------------------------------------------------------------------

/// The release ledger.
#[derive(Clone)]
pub struct ReleaseStorage {
    releases: Vec<(Id, ReleaseData)>,
    status_list: Vec<IdStatus>,
    yanked_list: Vec<Id>,
    latest: Option<Id>,
}

impl View for ReleaseStorage {
    type V = LedgerView;

    closed spec fn view(&self) -> LedgerView {
        LedgerView {
            releases: entries_map(entries_of(self.releases@)),
            status_list: status_views(self.status_list@),
            yanked_list: id_views(self.yanked_list@),
            latest: opt_id_view(self.latest),
        }
    }
}

impl ReleaseStorage {
    /// The ledger invariant holds, artifact keys are unique, and every
    /// identifier held has a checksum of `CHECKSUM_LEN` bytes.
    pub closed spec fn wf(&self) -> bool {
        &&& ledger_invariant(self@)
        &&& keys_unique(entries_of(self.releases@))
        &&& forall|i: int|
            0 <= i < self.releases@.len() ==> (#[trigger] self.releases@[i]).0@.checksum.len()
                == CHECKSUM_LEN
        &&& forall|i: int|
            0 <= i < self.status_list@.len() ==> (#[trigger] self.status_list@[i]).id@.checksum.len()
                == CHECKSUM_LEN
        &&& forall|i: int|
            0 <= i < self.yanked_list@.len() ==> (#[trigger] self.yanked_list@[i])@.checksum.len()
                == CHECKSUM_LEN
        &&& self.latest matches Some(l) ==> l@.checksum.len() == CHECKSUM_LEN
    }

    #[must_use]
    pub fn new() -> (r: Self)
        ensures
            r.wf(),
            r@ == empty_ledger(),
    {
        let r = ReleaseStorage {
            releases: Vec::new(),
            status_list: Vec::new(),
            yanked_list: Vec::new(),
            latest: None,
        };
        assert(entries_map(entries_of(r.releases@)) =~= Map::empty());
        assert(status_views(r.status_list@) =~= Seq::empty());
        assert(id_views(r.yanked_list@) =~= Seq::empty());
        proof {
            lemma_empty_invariant();
        }
        r
    }

    fn find_release(&self, id: &Id) -> (r: Option<usize>)
        ensures
            match r {
                Some(i) => i < self.releases@.len() && entries_of(self.releases@)[i as int].0
                    == id@,
                None => !has_key(entries_of(self.releases@), id@),
            },
    {
        let mut i: usize = 0;
        while i < self.releases.len()
            invariant
                i <= self.releases@.len(),
                forall|j: int| 0 <= j < i ==> #[trigger] entries_of(self.releases@)[j].0 != id@,
            decreases self.releases@.len() - i,
        {
            if self.releases[i].0 == *id {
                return Some(i);
            }
            i = i + 1;
        }
        None
    }

    fn find_status(&self, id: &Id) -> (r: Option<usize>)
        ensures
            match r {
                Some(i) => find(self@.status_list, id@) == Some(i as nat),
                None => find(self@.status_list, id@) is None,
            },
            r matches Some(i) ==> i < self.status_list@.len(),
    {
        proof {
            lemma_find(self@.status_list, id@);
        }
        let mut i: usize = 0;
        while i < self.status_list.len()
            invariant
                i <= self.status_list@.len(),
                forall|j: int| 0 <= j < i ==> #[trigger] self@.status_list[j].id != id@,
                self@.status_list.len() == self.status_list@.len(),
                match find(self@.status_list, id@) {
                    Some(k) => k < self@.status_list.len() && self@.status_list[k as int].id == id@
                        && forall|j: int| 0 <= j < k ==> #[trigger] self@.status_list[j].id != id@,
                    None => forall|j: int|
                        0 <= j < self@.status_list.len() ==> #[trigger] self@.status_list[j].id
                            != id@,
                },
            decreases self.status_list@.len() - i,
        {
            assert(self@.status_list[i as int] == self.status_list@[i as int]@);
            if self.status_list[i].id == *id {
                proof {
                    assert(self@.status_list[i as int].id == id@);
                    match find(self@.status_list, id@) {
                        Some(k) => {
                            if k < i {
                                assert(self@.status_list[k as int].id != id@);
                            } else if k > i {
                                assert(self@.status_list[i as int].id != id@);
                            }
                        },
                        None => {
                            assert(self@.status_list[i as int].id != id@);
                        },
                    }
                }
                return Some(i);
            }
            i = i + 1;
        }
        None
    }

    /// Stores `code` under `id` (replacing what was there), appends a
    /// `Released` entry to the status log, and makes `id` the latest when
    /// `latest` is set.
    pub fn insert(&mut self, id: Id, code: &ReleaseData, latest: bool)
        requires
            old(self).wf(),
            id@.checksum.len() == CHECKSUM_LEN,
        ensures
            final(self).wf(),
            final(self)@ == inserted(old(self)@, id@, code@, latest),
    {
        let ghost before = entries_of(self.releases@);
        proof {
            lemma_inserted_invariant(old(self)@, id@, code@, latest);
        }
        match self.find_release(&id) {
            Some(i) => {
                self.releases.set(i, (id.clone(), code.clone()));
                proof {
                    lemma_entry_replace(before, i as int, code@);
                    assert(entries_of(self.releases@) =~= before.update(
                        i as int,
                        (id@, code@),
                    ));
                }
            },
            None => {
                self.releases.push((id.clone(), code.clone()));
                proof {
                    lemma_entry_append(before, id@, code@);
                    assert(entries_of(self.releases@) =~= before.push((id@, code@)));
                }
            },
        }
        self.status_list.push(IdStatus { id: id.clone(), status: Status::Released });
        if latest {
            self.latest = Some(id);
        }
        assert(status_views(self.status_list@) =~= status_views(old(self).status_list@).push(
            IdStatusView { id: id@, status: Status::Released },
        ));
    }

    /// Withdraws `id`: deletes its bytes and, when the status log names it,
    /// marks the first such entry `Yanked`, records `id` as withdrawn and
    /// returns the new entry.
    pub fn remove(&mut self, id: &Id) -> (r: Option<IdStatus>)
        requires
            old(self).wf(),
        ensures
            final(self).wf(),
            final(self)@ == removed(old(self)@, id@),
            opt_status_view(r) == removal_result(old(self)@, id@),
    {
        let ghost before = entries_of(self.releases@);
        proof {
            lemma_removed_invariant(old(self)@, id@);
        }
        if let Some(i) = self.find_release(id) {
            self.releases.remove(i);
            proof {
                lemma_entry_remove(before, i as int);
                assert(entries_of(self.releases@) =~= before.remove(i as int));
            }
        } else {
            assert(entries_map(before) =~= entries_map(before).remove(id@));
        }
        let found = self.find_status(id);
        let i = match found {
            Some(i) => i,
            None => return None,
        };
        let id_status = IdStatus { id: id.clone(), status: Status::Yanked };
        proof {
            lemma_find(old(self)@.status_list, id@);
        }
        self.status_list.set(i, id_status.clone());
        self.yanked_list.push(id.clone());
        assert(status_views(self.status_list@) =~= status_views(old(self).status_list@).update(
            i as int,
            IdStatusView { id: id@, status: Status::Yanked },
        ));
        assert(id_views(self.yanked_list@) =~= id_views(old(self).yanked_list@).push(id@));
        Some(id_status)
    }

    /// The bytes stored under `id`, if any.
    #[must_use]
    pub fn get(&self, id: &Id) -> (r: Option<ReleaseData>)
        requires
            self.wf(),
        ensures
            r is Some <==> self@.releases.contains_key(id@),
            r matches Some(d) ==> d@ == self@.releases[id@],
    {
        match self.find_release(id) {
            Some(i) => {
                proof {
                    lemma_entry_lookup(entries_of(self.releases@), i as int);
                }
                Some(self.releases[i].1.clone())
            },
            None => None,
        }
    }

    /// The status log, in order of insertion.
    #[must_use]
    pub fn list(self) -> (r: Vec<IdStatus>)
        ensures
            status_views(r@) == self@.status_list,
    {
        self.status_list
    }

    /// The withdrawn identifiers, in order of withdrawal.
    #[must_use]
    pub fn yanks(self) -> (r: Vec<Id>)
        ensures
            id_views(r@) == self@.yanked_list,
    {
        self.yanked_list
    }

    /// The latest identifier, if one was ever set.
    #[must_use]
    pub fn latest(&self) -> (r: Option<Id>)
        ensures
            opt_id_view(r) == self@.latest,
    {
        match &self.latest {
            Some(id) => Some(id.clone()),
            None => None,
        }
    }

    /// The first status log entry for `id`, if any.
    #[must_use]
    pub fn get_status(&self, id: Id) -> (r: Option<IdStatus>)
        ensures
            opt_status_view(r) == status_of(self@.status_list, id@),
    {
        match self.find_status(&id) {
            Some(i) => {
                assert(self@.status_list[i as int] == self.status_list@[i as int]@);
                Some(self.status_list[i].clone())
            },
            None => None,
        }
    }
}

impl Default for ReleaseStorage {
    fn default() -> (r: Self)
        ensures
            r.wf(),
            r@ == empty_ledger(),
    {
        Self::new()
    }
}

// ---------------------------------------------------------------------------
// Laws
// ---------------------------------------------------------------------------

/// After inserting `code` under `id`, the bytes stored under `id` are `code`,
/// and the status of `id` reads `Released`, unless its first log entry had
/// already been withdrawn (that entry stays first, and `Yanked`).
pub proof fn lemma_insert_then_lookup(s: LedgerView, id: IdView, code: Seq<u8>, latest: bool)
    requires
        status_of(s.status_list, id) != Some(IdStatusView { id, status: Status::Yanked }),
    ensures
        inserted(s, id, code, latest).releases.contains_key(id),
        inserted(s, id, code, latest).releases[id] == code,
        status_of(inserted(s, id, code, latest).status_list, id) == Some(
            IdStatusView { id, status: Status::Released },
        ),
{
    let log = s.status_list;
    let log2 = inserted(s, id, code, latest).status_list;
    lemma_find(log, id);
    lemma_find(log2, id);
    match find(log, id) {
        Some(k) => {
            assert(log2[k as int] == log[k as int]);
            match find(log2, id) {
                Some(k2) => {
                    if k2 < k {
                        assert(log2[k2 as int] == log[k2 as int]);
                    } else if k2 > k {
                        assert(log2[k as int].id == id);
                    }
                },
                None => {
                    assert(log2[k as int].id == id);
                },
            }
        },
        None => {
            assert(log2[log.len() as int].id == id);
            match find(log2, id) {
                Some(k2) => {
                    if k2 < log.len() {
                        assert(log2[k2 as int] == log[k2 as int]);
                    }
                },
                None => {},
            }
        },
    }
}

/// Withdrawing what was just inserted deletes its bytes, leaves its status
/// `Yanked`, and records it among the withdrawn identifiers.
pub proof fn lemma_insert_then_remove(s: LedgerView, id: IdView, code: Seq<u8>, latest: bool)
    ensures
        !removed(inserted(s, id, code, latest), id).releases.contains_key(id),
        status_of(removed(inserted(s, id, code, latest), id).status_list, id) == Some(
            IdStatusView { id, status: Status::Yanked },
        ),
        removed(inserted(s, id, code, latest), id).yanked_list.contains(id),
        removal_result(inserted(s, id, code, latest), id) == Some(
            IdStatusView { id, status: Status::Yanked },
        ),
{
    let t = inserted(s, id, code, latest);
    let log = t.status_list;
    lemma_find(log, id);
    assert(log[s.status_list.len() as int].id == id);
    let k = find(log, id).unwrap();
    let log2 = log.update(k as int, IdStatusView { id, status: Status::Yanked });
    lemma_find(log2, id);
    match find(log2, id) {
        Some(k2) => {
            if k2 < k {
                assert(log2[k2 as int] == log[k2 as int]);
            } else if k2 > k {
                assert(log2[k as int].id == id);
            }
        },
        None => {
            assert(log2[k as int].id == id);
        },
    }
    let r = removed(t, id);
    assert(r.yanked_list[r.yanked_list.len() - 1] == id);
}

/// Withdrawing an identifier that the log does not name reports nothing and
/// changes neither the status log nor the withdrawn list.
pub proof fn lemma_remove_unknown(s: LedgerView, id: IdView)
    requires
        forall|i: int| 0 <= i < s.status_list.len() ==> #[trigger] s.status_list[i].id != id,
    ensures
        removal_result(s, id) is None,
        removed(s, id).status_list == s.status_list,
        removed(s, id).yanked_list == s.yanked_list,
{
    lemma_find(s.status_list, id);
}

/// The latest pointer follows only insertions marked latest: inserting `a`
/// as latest and then `b` not as latest leaves `a` latest, also after `a` is
/// withdrawn.
pub proof fn lemma_latest_independence(
    s: LedgerView,
    a: IdView,
    code_a: Seq<u8>,
    b: IdView,
    code_b: Seq<u8>,
)
    ensures
        inserted(inserted(s, a, code_a, true), b, code_b, false).latest == Some(a),
        removed(inserted(inserted(s, a, code_a, true), b, code_b, false), a).latest == Some(a),
{
}

/// The identifiers of the status log, in order.
pub open spec fn log_ids(log: Seq<IdStatusView>) -> Seq<IdView> {
    log.map_values(|e: IdStatusView| e.id)
}

/// The ledger after withdrawing each of `ids` in turn.
pub open spec fn removed_all(s: LedgerView, ids: Seq<IdView>) -> LedgerView
    decreases ids.len(),
{
    if ids.len() == 0 {
        s
    } else {
        removed_all(removed(s, ids[0]), ids.drop_first())
    }
}

/// A withdrawal keeps the identifiers of the status log and their order.
pub proof fn lemma_remove_keeps_order(s: LedgerView, id: IdView)
    ensures
        log_ids(removed(s, id).status_list) == log_ids(s.status_list),
{
    lemma_find(s.status_list, id);
    assert(log_ids(removed(s, id).status_list) =~= log_ids(s.status_list));
}

/// Withdrawals, in any number and order, keep the identifiers of the status
/// log and their order.
pub proof fn lemma_remove_all_keeps_order(s: LedgerView, ids: Seq<IdView>)
    ensures
        log_ids(removed_all(s, ids).status_list) == log_ids(s.status_list),
    decreases ids.len(),
{
    if ids.len() > 0 {
        lemma_remove_keeps_order(s, ids[0]);
        lemma_remove_all_keeps_order(removed(s, ids[0]), ids.drop_first());
    }
}

/// Three insertions into an empty ledger are listed in the order they were
/// made, whatever is withdrawn afterwards.
pub proof fn lemma_insertion_order(
    x: IdView,
    code_x: Seq<u8>,
    latest_x: bool,
    y: IdView,
    code_y: Seq<u8>,
    latest_y: bool,
    z: IdView,
    code_z: Seq<u8>,
    latest_z: bool,
    withdrawals: Seq<IdView>,
)
    ensures
        log_ids(
            removed_all(
                inserted(
                    inserted(inserted(empty_ledger(), x, code_x, latest_x), y, code_y, latest_y),
                    z,
                    code_z,
                    latest_z,
                ),
                withdrawals,
            ).status_list,
        ) == seq![x, y, z],
{
    let s = inserted(
        inserted(inserted(empty_ledger(), x, code_x, latest_x), y, code_y, latest_y),
        z,
        code_z,
        latest_z,
    );
    lemma_remove_all_keeps_order(s, withdrawals);
    assert(log_ids(s.status_list) =~= seq![x, y, z]);
}

} // verus!
