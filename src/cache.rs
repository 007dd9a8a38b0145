use vstd::prelude::*;

verus! {

/// A credential stays in use until this many seconds before it expires.
pub const SAFETY_MARGIN_SECS: u64 = 30;

/// The client identifier and secret that a credential is issued for.
#[derive(Debug)]
pub struct Identity {
    pub client_id: String,
    pub client_secret: String,
}

impl View for Identity {
    type V = (Seq<char>, Seq<char>);

    open spec fn view(&self) -> (Seq<char>, Seq<char>) {
        (self.client_id@, self.client_secret@)
    }
}

/// Why an authentication exchange failed.
#[derive(Debug)]
pub enum AuthError {
    /// The authority could not be reached.
    Transport(String),
    /// The authority answered with this non-success status.
    Rejected(u16),
    /// The answer could not be read.
    Malformed(String),
}

/// A cached credential: its secret and the instant, in seconds, at which it expires.
pub struct TokenView {
    pub secret: Seq<char>,
    pub expires_at: nat,
}

/// The cache's contents: one credential per identity, and the identities whose refresh is
/// under way.
pub struct CacheView {
    pub entries: Map<(Seq<char>, Seq<char>), TokenView>,
    pub refreshing: Set<(Seq<char>, Seq<char>)>,
}

/// What a caller that wants a credential is to do.
#[derive(Debug)]
pub enum Decision {
    /// Use this secret.
    Serve(String),
    /// Another caller is refreshing this identity: wait for it to finish, then ask again.
    Wait,
    /// Perform the authentication exchange, then report it with `complete`.
    Fetch,
}

pub enum DecisionView {
    Serve(Seq<char>),
    Wait,
    Fetch,
}

impl View for Decision {
    type V = DecisionView;

    open spec fn view(&self) -> DecisionView {
        match self {
            Decision::Serve(s) => DecisionView::Serve(s@),
            Decision::Wait => DecisionView::Wait,
            Decision::Fetch => DecisionView::Fetch,
        }
    }
}

/// A credential that expires more than the safety margin after `now` is served.
pub open spec fn fresh(t: TokenView, now: nat) -> bool {
    t.expires_at > now + SAFETY_MARGIN_SECS
}

/// The cache holds a credential for `id` that can be served at `now`.
pub open spec fn serves(c: CacheView, id: (Seq<char>, Seq<char>), now: nat) -> bool {
    c.entries.contains_key(id) && fresh(c.entries[id], now)
}

/// The expiry of a credential obtained at `now` with a lifetime of `lifetime` seconds.
pub open spec fn expiry(now: nat, lifetime: nat) -> nat {
    if now + lifetime > u64::MAX {
        u64::MAX as nat
    } else {
        now + lifetime
    }
}

/// What a caller asking for `id` at `now` is told.
pub open spec fn begin_decision(c: CacheView, id: (Seq<char>, Seq<char>), now: nat) -> DecisionView {
    if serves(c, id, now) {
        DecisionView::Serve(c.entries[id].secret)
    } else if c.refreshing.contains(id) {
        DecisionView::Wait
    } else {
        DecisionView::Fetch
    }
}

/// The cache after a caller asks for `id` at `now`: a caller told to fetch marks the
/// identity as refreshing.
pub open spec fn after_begin(c: CacheView, id: (Seq<char>, Seq<char>), now: nat) -> CacheView {
    if begin_decision(c, id, now) is Fetch {
        CacheView { refreshing: c.refreshing.insert(id), ..c }
    } else {
        c
    }
}

/// The cache after the exchange for `id` ended at `now`: on success the new credential
/// replaces any older one; on failure every entry stays as it was.
pub open spec fn after_complete(
    c: CacheView,
    id: (Seq<char>, Seq<char>),
    now: nat,
    fetched: Option<(Seq<char>, nat)>,
) -> CacheView {
    match fetched {
        Some((secret, lifetime)) => CacheView {
            entries: c.entries.insert(id, TokenView { secret, expires_at: expiry(now, lifetime) }),
            refreshing: c.refreshing.remove(id),
        },
        None => CacheView { refreshing: c.refreshing.remove(id), ..c },
    }
}

spec fn listed(s: Seq<Identity>, k: (Seq<char>, Seq<char>)) -> bool {
    exists|j: int| 0 <= j < s.len() && (#[trigger] s[j])@ == k
}

proof fn lemma_listed_push(s: Seq<Identity>, x: Identity)
    ensures
        forall|k: (Seq<char>, Seq<char>)|
            #[trigger] listed(s.push(x), k) <==> (listed(s, k) || x@ == k),
{
    assert forall|k: (Seq<char>, Seq<char>)|
        #[trigger] listed(s.push(x), k) <==> (listed(s, k) || x@ == k) by {
        if listed(s.push(x), k) {
            let j = choose|j: int| 0 <= j < s.push(x).len() && (#[trigger] s.push(x)[j])@ == k;
            if j < s.len() {
                assert(s[j] == s.push(x)[j]);
            }
        }
        if listed(s, k) {
            let j = choose|j: int| 0 <= j < s.len() && (#[trigger] s[j])@ == k;
            assert(s.push(x)[j] == s[j]);
        }
        if x@ == k {
            assert(s.push(x)[s.len() as int] == x);
        }
    }
}

struct Entry {
    identity: Identity,
    secret: String,
    expires_at: u64,
}

spec fn token_of(e: Entry) -> TokenView {
    TokenView { secret: e.secret@, expires_at: e.expires_at as nat }
}

spec fn entry_map(es: Seq<Entry>) -> Map<(Seq<char>, Seq<char>), TokenView>
    decreases es.len(),
{
    if es.len() == 0 {
        Map::empty()
    } else {
        entry_map(es.drop_last()).insert(es.last().identity@, token_of(es.last()))
    }
}

spec fn unique_ids(es: Seq<Entry>) -> bool {
    forall|i: int, j: int|
        0 <= i < j < es.len() ==> (#[trigger] es[i]).identity@ != (#[trigger] es[j]).identity@
}

proof fn lemma_map_has(es: Seq<Entry>, i: int)
    requires
        unique_ids(es),
        0 <= i < es.len(),
    ensures
        entry_map(es).contains_key(es[i].identity@),
        entry_map(es)[es[i].identity@] == token_of(es[i]),
    decreases es.len(),
{
    if i < es.len() - 1 {
        let init = es.drop_last();
        assert(init[i] == es[i]);
        assert(unique_ids(init)) by {
            assert forall|a: int, b: int| 0 <= a < b < init.len() implies (#[trigger] init[a]).identity@
                != (#[trigger] init[b]).identity@ by {
                assert(init[a] == es[a] && init[b] == es[b]);
            }
        }
        lemma_map_has(init, i);
        assert(es[i].identity@ != es[es.len() - 1].identity@);
    }
}

proof fn lemma_map_lacks(es: Seq<Entry>, k: (Seq<char>, Seq<char>))
    requires
        forall|i: int| 0 <= i < es.len() ==> (#[trigger] es[i]).identity@ != k,
    ensures
        !entry_map(es).contains_key(k),
    decreases es.len(),
{
    if es.len() > 0 {
        let init = es.drop_last();
        assert forall|i: int| 0 <= i < init.len() implies (#[trigger] init[i]).identity@ != k by {
            assert(init[i] == es[i]);
        }
        lemma_map_lacks(init, k);
        assert(es.last() == es[es.len() - 1]);
    }
}

proof fn lemma_map_update(es: Seq<Entry>, i: int, e: Entry)
    requires
        unique_ids(es),
        0 <= i < es.len(),
        es[i].identity@ == e.identity@,
    ensures
        unique_ids(es.update(i, e)),
        entry_map(es.update(i, e)) == entry_map(es).insert(e.identity@, token_of(e)),
    decreases es.len(),
{
    let u = es.update(i, e);
    assert(unique_ids(u)) by {
        assert forall|a: int, b: int| 0 <= a < b < u.len() implies (#[trigger] u[a]).identity@
            != (#[trigger] u[b]).identity@ by {
            assert(u[a].identity@ == es[a].identity@);
            assert(u[b].identity@ == es[b].identity@);
        }
    }
    let init = es.drop_last();
    if i == es.len() - 1 {
        assert(u.drop_last() =~= init);
        assert(entry_map(u) =~= entry_map(es).insert(e.identity@, token_of(e)));
    } else {
        assert(u.drop_last() =~= init.update(i, e));
        assert(unique_ids(init)) by {
            assert forall|a: int, b: int| 0 <= a < b < init.len() implies (#[trigger] init[a]).identity@
                != (#[trigger] init[b]).identity@ by {
                assert(init[a] == es[a] && init[b] == es[b]);
            }
        }
        assert(init[i] == es[i]);
        lemma_map_update(init, i, e);
        assert(es[i].identity@ != es[es.len() - 1].identity@);
        assert(u.last() == es.last());
        assert(entry_map(u) =~= entry_map(es).insert(e.identity@, token_of(e)));
    }
}

/// Credentials shared by all callers, at most one per identity, with the identities whose
/// refresh is under way.
pub struct TokenCache {
    entries: Vec<Entry>,
    refreshing: Vec<Identity>,
}

impl View for TokenCache {
    type V = CacheView;

    closed spec fn view(&self) -> CacheView {
        CacheView {
            entries: entry_map(self.entries@),
            refreshing: Set::new(|k: (Seq<char>, Seq<char>)| listed(self.refreshing@, k)),
        }
    }
}

fn same_identity(a: &Identity, b: &Identity) -> (r: bool)
    ensures
        r == (a@ == b@),
{
    a.client_id == b.client_id && a.client_secret == b.client_secret
}

fn copy_identity(a: &Identity) -> (r: Identity)
    ensures
        r@ == a@,
{
    Identity { client_id: a.client_id.clone(), client_secret: a.client_secret.clone() }
}

impl TokenCache {
    pub closed spec fn wf(&self) -> bool {
        unique_ids(self.entries@)
    }

    /// An empty cache.
    pub fn new() -> (r: TokenCache)
        ensures
            r.wf(),
            r@.entries == Map::<(Seq<char>, Seq<char>), TokenView>::empty(),
            r@.refreshing == Set::<(Seq<char>, Seq<char>)>::empty(),
    {
        let r = TokenCache { entries: Vec::new(), refreshing: Vec::new() };
        assert(r@.entries =~= Map::<(Seq<char>, Seq<char>), TokenView>::empty());
        assert(r@.refreshing =~= Set::<(Seq<char>, Seq<char>)>::empty());
        r
    }

    fn find(&self, id: &Identity) -> (r: Option<usize>)
        requires
            self.wf(),
        ensures
            r matches Some(i) ==> i < self.entries@.len() && self.entries@[i as int].identity@
                == id@ && self@.entries.contains_key(id@) && self@.entries[id@] == token_of(
                self.entries@[i as int],
            ),
            r is None ==> !self@.entries.contains_key(id@),
    {
        let mut i: usize = 0;
        while i < self.entries.len()
            invariant
                self.wf(),
                i <= self.entries@.len(),
                forall|j: int| 0 <= j < i ==> (#[trigger] self.entries@[j]).identity@ != id@,
            decreases self.entries.len() - i,
        {
            if same_identity(&self.entries[i].identity, id) {
                proof {
                    lemma_map_has(self.entries@, i as int);
                }
                return Some(i);
            }
            i += 1;
        }
        proof {
            lemma_map_lacks(self.entries@, id@);
        }
        None
    }

    /// The fast path: the cached secret for `id`, if it can be served at `now`.
    pub fn lookup(&self, id: &Identity, now: u64) -> (r: Option<String>)
        requires
            self.wf(),
        ensures
            r is Some <==> serves(self@, id@, now as nat),
            r matches Some(s) ==> s@ == self@.entries[id@].secret,
    {
        match self.find(id) {
            None => None,
            Some(i) => {
                let e = &self.entries[i];
                if e.expires_at > now && e.expires_at - now > SAFETY_MARGIN_SECS {
                    Some(e.secret.clone())
                } else {
                    None
                }
            },
        }
    }

    fn is_refreshing(&self, id: &Identity) -> (r: bool)
        ensures
            r == self@.refreshing.contains(id@),
    {
        let mut i: usize = 0;
        while i < self.refreshing.len()
            invariant
                i <= self.refreshing@.len(),
                forall|j: int| 0 <= j < i ==> (#[trigger] self.refreshing@[j])@ != id@,
            decreases self.refreshing.len() - i,
        {
            if same_identity(&self.refreshing[i], id) {
                assert(listed(self.refreshing@, id@));
                return true;
            }
            i += 1;
        }
        assert(!listed(self.refreshing@, id@));
        false
    }

    /// The decision inside the exclusive section: serve a credential that is still good
    /// (another caller may have refreshed it meanwhile), wait for a refresh under way, or
    /// become the one caller that refreshes `id`.
    pub fn begin(&mut self, id: &Identity, now: u64) -> (r: Decision)
        requires
            old(self).wf(),
        ensures
            final(self).wf(),
            r@ == begin_decision(old(self)@, id@, now as nat),
            final(self)@ == after_begin(old(self)@, id@, now as nat),
    {
        if let Some(s) = self.lookup(id, now) {
            return Decision::Serve(s);
        }
        if self.is_refreshing(id) {
            return Decision::Wait;
        }
        let ghost before = self@;
        let copy = copy_identity(id);
        proof {
            lemma_listed_push(self.refreshing@, copy);
        }
        self.refreshing.push(copy);
        assert(self@.refreshing =~= before.refreshing.insert(id@));
        Decision::Fetch
    }

    fn stop_refreshing(&mut self, id: &Identity)
        ensures
            final(self).entries@ == old(self).entries@,
            final(self)@.refreshing == old(self)@.refreshing.remove(id@),
    {
        let mut kept: Vec<Identity> = Vec::new();
        let mut i: usize = 0;
        while i < self.refreshing.len()
            invariant
                i <= self.refreshing@.len(),
                forall|k: (Seq<char>, Seq<char>)|
                    #[trigger] listed(kept@, k) <==> (k != id@ && listed(
                        self.refreshing@.take(i as int),
                        k,
                    )),
            decreases self.refreshing.len() - i,
        {
            let ghost before = kept@;
            let ghost x = self.refreshing@[i as int];
            assert(self.refreshing@.take(i + 1) =~= self.refreshing@.take(i as int).push(x));
            proof {
                lemma_listed_push(self.refreshing@.take(i as int), x);
            }
            if !same_identity(&self.refreshing[i], id) {
                let c = copy_identity(&self.refreshing[i]);
                kept.push(c);
                assert(kept@ =~= before.push(c));
                proof {
                    lemma_listed_push(before, c);
                }
            }
            i += 1;
        }
        assert(self.refreshing@.take(self.refreshing@.len() as int) =~= self.refreshing@);
        let ghost old_view = self@;
        self.refreshing = kept;
        assert(self@.refreshing =~= old_view.refreshing.remove(id@)) by {
            assert forall|k: (Seq<char>, Seq<char>)| #[trigger] self@.refreshing.contains(k) == listed(
                self.refreshing@,
                k,
            ) by {}
            assert forall|k: (Seq<char>, Seq<char>)| #[trigger] old_view.refreshing.contains(k)
                == listed(old(self).refreshing@, k) by {}
        }
    }

    /// Records how the exchange for `id`, begun after a `Fetch`, ended at `now`: on success
    /// the new credential (`secret`, valid for `lifetime` seconds) replaces any older one and
    /// its secret is returned; on failure the error is returned and every cached credential
    /// stays as it was.
    pub fn complete(
        &mut self,
        id: &Identity,
        now: u64,
        fetched: Result<(String, u64), AuthError>,
    ) -> (r: Result<String, AuthError>)
        requires
            old(self).wf(),
        ensures
            final(self).wf(),
            final(self)@ == after_complete(
                old(self)@,
                id@,
                now as nat,
                match fetched {
                    Ok((s, l)) => Some((s@, l as nat)),
                    Err(_) => None,
                },
            ),
            match (fetched, r) {
                (Ok((s, _)), Ok(t)) => t@ == s@,
                (Err(e), Err(f)) => f == e,
                _ => false,
            },
    {
        self.stop_refreshing(id);
        match fetched {
            Err(e) => Err(e),
            Ok((secret, lifetime)) => {
                let expires_at: u64 = if lifetime > u64::MAX - now {
                    u64::MAX
                } else {
                    now + lifetime
                };
                let entry = Entry {
                    identity: copy_identity(id),
                    secret: secret.clone(),
                    expires_at,
                };
                let ghost before = self@;
                let ghost es = self.entries@;
                match self.find(id) {
                    Some(i) => {
                        proof {
                            lemma_map_update(es, i as int, entry);
                        }
                        self.entries[i] = entry;
                    },
                    None => {
                        self.entries.push(entry);
                        assert(self.entries@.drop_last() =~= es);
                        assert forall|a: int, b: int|
                            0 <= a < b < self.entries@.len() implies (#[trigger] self.entries@[a]).identity@
                            != (#[trigger] self.entries@[b]).identity@ by {
                            if b == self.entries@.len() - 1 {
                                assert(self.entries@[a] == es[a]);
                                if es[a].identity@ == id@ {
                                    lemma_map_has(es, a);
                                }
                            } else {
                                assert(self.entries@[a] == es[a] && self.entries@[b] == es[b]);
                            }
                        }
                    },
                }
                assert(self@.entries =~= before.entries.insert(
                    id@,
                    TokenView { secret: secret@, expires_at: expiry(now as nat, lifetime as nat) },
                ));
                Ok(secret)
            },
        }
    }
}

/// The cache after callers ask for `id` at the instants `nows`, in turn, with no refresh
/// finishing meanwhile.
pub open spec fn after_begins(c: CacheView, id: (Seq<char>, Seq<char>), nows: Seq<nat>) -> CacheView
    decreases nows.len(),
{
    if nows.len() == 0 {
        c
    } else {
        after_begin(after_begins(c, id, nows.drop_last()), id, nows.last())
    }
}

/// What those callers are told, in turn.
pub open spec fn begin_decisions(
    c: CacheView,
    id: (Seq<char>, Seq<char>),
    nows: Seq<nat>,
) -> Seq<DecisionView>
    decreases nows.len(),
{
    if nows.len() == 0 {
        Seq::empty()
    } else {
        begin_decisions(c, id, nows.drop_last()).push(
            begin_decision(after_begins(c, id, nows.drop_last()), id, nows.last()),
        )
    }
}

/// Single flight: when `id` has no credential that can be served to any of the callers,
/// of all the callers that ask for it before a refresh finishes exactly one, the first, is
/// told to fetch; all others wait.
pub proof fn lemma_single_flight(c: CacheView, id: (Seq<char>, Seq<char>), nows: Seq<nat>)
    requires
        !c.refreshing.contains(id),
        forall|i: int| 0 <= i < nows.len() ==> !serves(c, id, #[trigger] nows[i]),
    ensures
        begin_decisions(c, id, nows).len() == nows.len(),
        nows.len() > 0 ==> begin_decisions(c, id, nows)[0] is Fetch,
        forall|i: int|
            0 < i < nows.len() ==> #[trigger] begin_decisions(c, id, nows)[i] is Wait,
        nows.len() > 0 ==> after_begins(c, id, nows).refreshing.contains(id),
        after_begins(c, id, nows).entries == c.entries,
    decreases nows.len(),
{
    if nows.len() > 0 {
        let init = nows.drop_last();
        assert forall|i: int| 0 <= i < init.len() implies !serves(c, id, #[trigger] init[i]) by {
            assert(init[i] == nows[i]);
        }
        lemma_single_flight(c, id, init);
        assert(!serves(c, id, nows[nows.len() - 1]));
        let d = begin_decisions(c, id, nows);
        assert forall|i: int| 0 < i < nows.len() implies #[trigger] d[i] is Wait by {
            if i < nows.len() - 1 {
                assert(d[i] == begin_decisions(c, id, init)[i]);
            }
        }
        if init.len() > 0 {
            assert(d[0] == begin_decisions(c, id, init)[0]);
        }
    }
}

/// Once the one refresh succeeds, every caller that asks while the new credential is fresh
/// is served its secret.
pub proof fn lemma_refresh_serves_waiters(
    c: CacheView,
    id: (Seq<char>, Seq<char>),
    now: nat,
    secret: Seq<char>,
    lifetime: nat,
    later: nat,
)
    requires
        later + SAFETY_MARGIN_SECS < expiry(now, lifetime),
    ensures
        begin_decision(after_complete(c, id, now, Some((secret, lifetime))), id, later)
            == DecisionView::Serve(secret),
        !after_complete(c, id, now, Some((secret, lifetime))).refreshing.contains(id),
{
}

/// Isolation: a failed refresh leaves every cached credential as it was, of this identity
/// and of every other.
pub proof fn lemma_failed_refresh_keeps_entries(
    c: CacheView,
    id: (Seq<char>, Seq<char>),
    now: nat,
    other: (Seq<char>, Seq<char>),
    later: nat,
)
    ensures
        after_complete(c, id, now, None).entries == c.entries,
        serves(after_complete(c, id, now, None), other, later) == serves(c, other, later),
{
}

/// Isolation: a refresh of one identity changes no other identity's credential.
pub proof fn lemma_refresh_isolated(
    c: CacheView,
    id: (Seq<char>, Seq<char>),
    now: nat,
    fetched: Option<(Seq<char>, nat)>,
    other: (Seq<char>, Seq<char>),
)
    requires
        other != id,
    ensures
        after_complete(c, id, now, fetched).entries.contains_key(other) == c.entries.contains_key(
            other,
        ),
        c.entries.contains_key(other) ==> after_complete(c, id, now, fetched).entries[other]
            == c.entries[other],
        after_complete(c, id, now, fetched).refreshing.contains(other) == c.refreshing.contains(
            other,
        ),
{
}

/// Refreshes of different identities do not block each other: a caller asking for `other`
/// is told the same whether or not `id` was just marked as refreshing.
pub proof fn lemma_identities_independent(
    c: CacheView,
    id: (Seq<char>, Seq<char>),
    now: nat,
    other: (Seq<char>, Seq<char>),
    later: nat,
)
    requires
        other != id,
    ensures
        begin_decision(after_begin(c, id, now), other, later) == begin_decision(c, other, later),
{
}

/// Single flight, second half: after the one refresh of `id` succeeds with `secret`, every
/// caller that then asks while it is fresh (the callers that waited, and any others) is
/// served that secret, and none of them starts another exchange.
pub proof fn lemma_all_served(
    c: CacheView,
    id: (Seq<char>, Seq<char>),
    now: nat,
    secret: Seq<char>,
    lifetime: nat,
    nows: Seq<nat>,
)
    requires
        forall|i: int|
            0 <= i < nows.len() ==> #[trigger] nows[i] + SAFETY_MARGIN_SECS < expiry(now, lifetime),
    ensures
        ({
            let after = after_complete(c, id, now, Some((secret, lifetime)));
            &&& begin_decisions(after, id, nows).len() == nows.len()
            &&& forall|i: int|
                0 <= i < nows.len() ==> #[trigger] begin_decisions(after, id, nows)[i]
                    == DecisionView::Serve(secret)
            &&& after_begins(after, id, nows) == after
        }),
    decreases nows.len(),
{
    let after = after_complete(c, id, now, Some((secret, lifetime)));
    if nows.len() > 0 {
        let init = nows.drop_last();
        assert forall|i: int| 0 <= i < init.len() implies #[trigger] init[i] + SAFETY_MARGIN_SECS
            < expiry(now, lifetime) by {
            assert(init[i] == nows[i]);
        }
        lemma_all_served(c, id, now, secret, lifetime, init);
        assert(nows.last() == nows[nows.len() - 1]);
        let d = begin_decisions(after, id, nows);
        assert forall|i: int| 0 <= i < nows.len() implies #[trigger] d[i] == DecisionView::Serve(
            secret,
        ) by {
            if i < nows.len() - 1 {
                assert(d[i] == begin_decisions(after, id, init)[i]);
            }
        }
    }
}

} // verus!
