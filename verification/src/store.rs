//! The ephemeral store: pending verifications keyed by one-time code, each
//! with an expiry time, and the typed mapping of cache failures to outcomes.
//!
//! The store is modeled against an explicit clock: every operation takes the
//! current time, and an entry past its expiry is as good as absent. Redemption
//! uses an atomic take (fetch-and-delete), which is what makes exactly-once
//! redemption hold.

use vstd::prelude::*;
use crate::outcome::StatusCategory;

verus! {

/// The failure categories a cache backend can report, as a closed enum; the
/// two nil/incompatible-response cases stand apart because they mean the key
/// was simply not there.
#[derive(Clone, Copy, Debug, PartialEq, Eq, Structural)]
pub enum CacheFailure {
    NilResponse,
    IncompatibleResponse,
    ResponseError,
    AuthenticationFailed,
    TypeError,
    ExecAbort,
    BusyLoading,
    NoScript,
    InvalidClientConfig,
    Moved,
    Ask,
    TryAgain,
    ClusterDown,
    CrossSlot,
    MasterDown,
    Io,
    Client,
    Extension,
    ReadOnly,
    Unknown,
}

/// The status category each cache failure maps to: a pure lookup table.
pub open spec fn spec_cache_failure_status(f: CacheFailure) -> StatusCategory {
    match f {
        CacheFailure::NilResponse => StatusCategory::NotFound,
        CacheFailure::IncompatibleResponse => StatusCategory::NotFound,
        CacheFailure::ResponseError => StatusCategory::Internal,
        CacheFailure::AuthenticationFailed => StatusCategory::Unauthorized,
        CacheFailure::TypeError => StatusCategory::BadRequest,
        CacheFailure::ExecAbort => StatusCategory::Internal,
        CacheFailure::BusyLoading => StatusCategory::Unavailable,
        CacheFailure::NoScript => StatusCategory::Internal,
        CacheFailure::InvalidClientConfig => StatusCategory::BadRequest,
        CacheFailure::Moved => StatusCategory::MovedPermanently,
        CacheFailure::Ask => StatusCategory::TemporaryRedirect,
        CacheFailure::TryAgain => StatusCategory::Internal,
        CacheFailure::ClusterDown => StatusCategory::Unavailable,
        CacheFailure::CrossSlot => StatusCategory::Internal,
        CacheFailure::MasterDown => StatusCategory::Unavailable,
        CacheFailure::Io => StatusCategory::Internal,
        CacheFailure::Client => StatusCategory::BadRequest,
        CacheFailure::Extension => StatusCategory::Internal,
        CacheFailure::ReadOnly => StatusCategory::Forbidden,
        CacheFailure::Unknown => StatusCategory::Internal,
    }
}

/// Map a cache failure to its status category.
pub fn cache_failure_status(f: CacheFailure) -> (r: StatusCategory)
    ensures
        r == spec_cache_failure_status(f),
{
    match f {
        CacheFailure::NilResponse => StatusCategory::NotFound,
        CacheFailure::IncompatibleResponse => StatusCategory::NotFound,
        CacheFailure::ResponseError => StatusCategory::Internal,
        CacheFailure::AuthenticationFailed => StatusCategory::Unauthorized,
        CacheFailure::TypeError => StatusCategory::BadRequest,
        CacheFailure::ExecAbort => StatusCategory::Internal,
        CacheFailure::BusyLoading => StatusCategory::Unavailable,
        CacheFailure::NoScript => StatusCategory::Internal,
        CacheFailure::InvalidClientConfig => StatusCategory::BadRequest,
        CacheFailure::Moved => StatusCategory::MovedPermanently,
        CacheFailure::Ask => StatusCategory::TemporaryRedirect,
        CacheFailure::TryAgain => StatusCategory::Internal,
        CacheFailure::ClusterDown => StatusCategory::Unavailable,
        CacheFailure::CrossSlot => StatusCategory::Internal,
        CacheFailure::MasterDown => StatusCategory::Unavailable,
        CacheFailure::Io => StatusCategory::Internal,
        CacheFailure::Client => StatusCategory::BadRequest,
        CacheFailure::Extension => StatusCategory::Internal,
        CacheFailure::ReadOnly => StatusCategory::Forbidden,
        CacheFailure::Unknown => StatusCategory::Internal,
    }
}

/// One pending verification: the code it is filed under, whom it was issued
/// for, the tenant domain, and when it lapses.
#[derive(Debug)]
pub struct StoreEntry {
    pub code: String,
    pub identity: String,
    pub domain: String,
    pub expires_at: u64,
}

/// The mathematical content of an entry's value.
pub ghost struct PendingView {
    pub identity: Seq<char>,
    pub domain: Seq<char>,
    pub expires_at: u64,
}

pub open spec fn entry_pending(e: StoreEntry) -> PendingView {
    PendingView { identity: e.identity@, domain: e.domain@, expires_at: e.expires_at }
}

/// The ephemeral store: at most one pending verification per code.
#[derive(Debug)]
pub struct OtpStore {
    entries: Vec<StoreEntry>,
}

impl View for OtpStore {
    type V = Map<Seq<char>, PendingView>;

    closed spec fn view(&self) -> Map<Seq<char>, PendingView> {
        Map::new(
            |k: Seq<char>|
                exists|i: int|
                    0 <= i < self.entries@.len() && self.entries@[i].code@ == k,
            |k: Seq<char>|
                entry_pending(
                    self.entries@[choose|i: int|
                        0 <= i < self.entries@.len() && self.entries@[i].code@ == k],
                ),
        )
    }
}

impl OtpStore {
    /// Codes are unique across the entries.
    pub closed spec fn wf(&self) -> bool {
        forall|i: int, j: int|
            0 <= i < j < self.entries@.len() ==> self.entries@[i].code@ != self.entries@[j].code@
    }

    proof fn lemma_view_index(&self, i: int)
        requires
            self.wf(),
            0 <= i < self.entries@.len(),
        ensures
            self@.contains_key(self.entries@[i].code@),
            self@[self.entries@[i].code@] == entry_pending(self.entries@[i]),
    {
        let k = self.entries@[i].code@;
        assert(exists|t: int| 0 <= t < self.entries@.len() && self.entries@[t].code@ == k);
        let j = choose|t: int| 0 <= t < self.entries@.len() && self.entries@[t].code@ == k;
        assert(j == i);
    }

    proof fn lemma_view_absent(&self, k: Seq<char>)
        requires
            forall|i: int|
                0 <= i < self.entries@.len() ==> (#[trigger] self.entries@[i].code@) != k,
        ensures
            !self@.contains_key(k),
    {
    }

    /// An empty store.
    pub fn new() -> (r: OtpStore)
        ensures
            r.wf(),
            r@ == Map::<Seq<char>, PendingView>::empty(),
    {
        let r = OtpStore { entries: Vec::new() };
        proof {
            assert(r@ =~= Map::<Seq<char>, PendingView>::empty());
        }
        r
    }

    /// The index holding `code`, if any.
    fn find_idx(&self, code: &String) -> (r: Option<usize>)
        requires
            self.wf(),
        ensures
            r matches Some(i) ==> i < self.entries@.len() && self.entries@[i as int].code@
                == code@,
            r is None ==> forall|i: int|
                0 <= i < self.entries@.len() ==> (#[trigger] self.entries@[i].code@) != code@,
    {
        let n = self.entries.len();
        let mut i: usize = 0;
        while i < n
            invariant
                i <= n,
                n == self.entries@.len(),
                forall|t: int| 0 <= t < i ==> (#[trigger] self.entries@[t].code@) != code@,
            decreases n - i,
        {
            if self.entries[i].code.eq(code) {
                return Some(i);
            }
            i = i + 1;
        }
        None
    }

    /// Upsert: file a pending verification under `code`, to lapse at
    /// `now + ttl`; any entry already under that code is overwritten.
    pub fn set_with_expiry(
        &mut self,
        code: &String,
        identity: &String,
        domain: &String,
        now: u64,
        ttl: u64,
    )
        requires
            old(self).wf(),
            now + ttl <= u64::MAX,
        ensures
            final(self).wf(),
            final(self)@ == old(self)@.insert(
                code@,
                PendingView { identity: identity@, domain: domain@, expires_at: (now + ttl) as u64 },
            ),
    {
        let ghost oldself = *self;
        match self.find_idx(code) {
            Some(i) => {
                let _ = self.entries.remove(i);
                proof {
                    assert forall|a: int, b: int|
                        0 <= a < b < self.entries@.len() implies self.entries@[a].code@
                        != self.entries@[b].code@ by {
                        let oa = if a < i { a } else { a + 1 };
                        let ob = if b < i { b } else { b + 1 };
                        assert(self.entries@[a] == oldself.entries@[oa]);
                        assert(self.entries@[b] == oldself.entries@[ob]);
                    }
                    assert forall|t: int|
                        0 <= t < self.entries@.len() implies (#[trigger] self.entries@[t].code@)
                        != code@ by {
                        let ot = if t < i { t } else { t + 1 };
                        assert(self.entries@[t] == oldself.entries@[ot]);
                    }
                }
            },
            None => {},
        }
        let ghost mid = *self;
        let entry = StoreEntry {
            code: code.clone(),
            identity: identity.clone(),
            domain: domain.clone(),
            expires_at: now + ttl,
        };
        self.entries.push(entry);
        proof {
            let n = self.entries@.len() - 1;
            // uniqueness: the new code is absent from the remainder
            assert forall|a: int, b: int|
                0 <= a < b < self.entries@.len() implies self.entries@[a].code@
                != self.entries@[b].code@ by {
                if b < n {
                    assert(self.entries@[a] == mid.entries@[a]);
                    assert(self.entries@[b] == mid.entries@[b]);
                } else {
                    assert(self.entries@[a] == mid.entries@[a]);
                }
            }
            let pv = PendingView {
                identity: identity@,
                domain: domain@,
                expires_at: (now + ttl) as u64,
            };
            assert forall|k: Seq<char>| true implies #[trigger] self@.contains_key(k) == old(
                self,
            )@.insert(code@, pv).contains_key(k) by {
                if k == code@ {
                    self.lemma_view_index(n);
                } else {
                    if self@.contains_key(k) {
                        let w = choose|t: int|
                            0 <= t < self.entries@.len() && self.entries@[t].code@ == k;
                        assert(w < n);
                        assert(mid.entries@[w].code@ == k);
                        let ow = if w < oldself.entries@.len() && oldself.entries@[w].code@ == k {
                            w
                        } else {
                            w + 1
                        };
                        assert(exists|t: int|
                            0 <= t < oldself.entries@.len() && oldself.entries@[t].code@ == k)
                            by {
                            if oldself.entries@.len() == mid.entries@.len() {
                                assert(oldself.entries@[w].code@ == k);
                            } else {
                                let i0 = choose|t: int|
                                    0 <= t < oldself.entries@.len() && oldself.entries@[t].code@
                                        == code@;
                                if w < i0 {
                                    assert(oldself.entries@[w].code@ == k);
                                } else {
                                    assert(oldself.entries@[w + 1].code@ == k);
                                }
                            }
                        }
                    }
                    if old(self)@.contains_key(k) {
                        let w = choose|t: int|
                            0 <= t < oldself.entries@.len() && oldself.entries@[t].code@ == k;
                        if oldself.entries@.len() == mid.entries@.len() {
                            assert(self.entries@[w].code@ == k);
                        } else {
                            let i0 = choose|t: int|
                                0 <= t < oldself.entries@.len() && oldself.entries@[t].code@
                                    == code@;
                            if w < i0 {
                                assert(self.entries@[w].code@ == k);
                            } else {
                                assert(w != i0);
                                assert(self.entries@[w - 1] == oldself.entries@[w]);
                            }
                        }
                    }
                }
            }
            assert forall|k: Seq<char>| self@.contains_key(k) implies self@[k] == old(
                self,
            )@.insert(code@, pv)[k] by {
                if k == code@ {
                    self.lemma_view_index(n);
                } else {
                    let w = choose|t: int|
                        0 <= t < self.entries@.len() && self.entries@[t].code@ == k;
                    self.lemma_view_index(w);
                    assert(w < n);
                    if oldself.entries@.len() == mid.entries@.len() {
                        oldself.lemma_view_index(w);
                        assert(oldself.entries@[w] == self.entries@[w]);
                    } else {
                        let i0 = choose|t: int|
                            0 <= t < oldself.entries@.len() && oldself.entries@[t].code@ == code@;
                        if w < i0 {
                            oldself.lemma_view_index(w);
                            assert(oldself.entries@[w] == self.entries@[w]);
                        } else {
                            oldself.lemma_view_index(w + 1);
                            assert(oldself.entries@[w + 1] == self.entries@[w]);
                        }
                    }
                }
            }
            assert(self@ =~= old(self)@.insert(code@, pv));
        }
    }

    /// Read the pending verification under `code`, if it is there and not yet
    /// lapsed; the store is unchanged.
    pub fn get(&self, code: &String, now: u64) -> (r: Option<(String, String)>)
        requires
            self.wf(),
        ensures
            r matches Some((identity, domain)) ==> self@.contains_key(code@) && now < self@[
                code@
            ].expires_at && identity@ == self@[code@].identity && domain@ == self@[code@].domain,
            r is None ==> !self@.contains_key(code@) || now >= self@[code@].expires_at,
    {
        match self.find_idx(code) {
            Some(i) => {
                proof {
                    self.lemma_view_index(i as int);
                }
                let e = &self.entries[i];
                if now < e.expires_at {
                    Some((e.identity.clone(), e.domain.clone()))
                } else {
                    None
                }
            },
            None => {
                proof {
                    self.lemma_view_absent(code@);
                }
                None
            },
        }
    }

    /// Remove whatever is filed under `code`; absence is not an error.
    pub fn delete(&mut self, code: &String)
        requires
            old(self).wf(),
        ensures
            final(self).wf(),
            final(self)@ == old(self)@.remove(code@),
    {
        let ghost oldself = *self;
        match self.find_idx(code) {
            Some(i) => {
                let _ = self.entries.remove(i);
                proof {
                    assert forall|a: int, b: int|
                        0 <= a < b < self.entries@.len() implies self.entries@[a].code@
                        != self.entries@[b].code@ by {
                        let oa = if a < i { a } else { a + 1 };
                        let ob = if b < i { b } else { b + 1 };
                        assert(self.entries@[a] == oldself.entries@[oa]);
                        assert(self.entries@[b] == oldself.entries@[ob]);
                    }
                    assert forall|k: Seq<char>| true implies #[trigger] self@.contains_key(k)
                        == oldself@.remove(code@).contains_key(k) by {
                        if self@.contains_key(k) {
                            let w = choose|t: int|
                                0 <= t < self.entries@.len() && self.entries@[t].code@ == k;
                            let ow = if w < i { w } else { w + 1 };
                            assert(oldself.entries@[ow].code@ == k);
                            assert(ow != i);
                            assert(k != code@);
                        }
                        if oldself@.remove(code@).contains_key(k) {
                            let w = choose|t: int|
                                0 <= t < oldself.entries@.len() && oldself.entries@[t].code@ == k;
                            assert(w != i);
                            if w < i {
                                assert(self.entries@[w].code@ == k);
                            } else {
                                assert(self.entries@[w - 1] == oldself.entries@[w]);
                            }
                        }
                    }
                    assert forall|k: Seq<char>| self@.contains_key(k) implies self@[k]
                        == oldself@.remove(code@)[k] by {
                        let w = choose|t: int|
                            0 <= t < self.entries@.len() && self.entries@[t].code@ == k;
                        self.lemma_view_index(w);
                        let ow = if w < i { w } else { w + 1 };
                        oldself.lemma_view_index(ow);
                        assert(self.entries@[w] == oldself.entries@[ow]);
                    }
                    assert(self@ =~= oldself@.remove(code@));
                }
            },
            None => {
                proof {
                    self.lemma_view_absent(code@);
                    assert(self@ =~= oldself@.remove(code@));
                }
            },
        }
    }

    /// Atomic fetch-and-delete: return the pending verification under `code`
    /// when it is there and not lapsed, and in every case leave the store
    /// without the code. This is the redemption primitive.
    pub fn take(&mut self, code: &String, now: u64) -> (r: Option<(String, String)>)
        requires
            old(self).wf(),
        ensures
            final(self).wf(),
            final(self)@ == old(self)@.remove(code@),
            r matches Some((identity, domain)) ==> old(self)@.contains_key(code@) && now < old(
                self,
            )@[code@].expires_at && identity@ == old(self)@[code@].identity && domain@ == old(
                self,
            )@[code@].domain,
            r is None ==> !old(self)@.contains_key(code@) || now >= old(self)@[
                code@
            ].expires_at,
    {
        let r = self.get(code, now);
        self.delete(code);
        r
    }
}

} // verus!
