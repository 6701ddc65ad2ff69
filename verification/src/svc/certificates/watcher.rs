//! The watcher: what the proxy acknowledged last, and the round in flight.
//!
//! A round is driven from outside. [`Watcher::lookup`] takes the bundles of a
//! scan and prepares the requests; the caller sends the request that
//! [`Watcher::next_request`] shows and reports how it went with
//! [`Watcher::record`], until no request is left.

use crate::svc::certificates::bundle::{CertificateAndKey, CertificateAndKeyView};
use crate::svc::certificates::diff::{
    added_order, added_paths, deleted_order, modified_order, modified_paths,
};
use crate::svc::certificates::message::{
    addition, all_backed, listed, needing_bundle, removal, replacement, request_list, RequestType,
    RequestView, SocketAddress,
};
use crate::svc::certificates::pathmap::{Listing, PathMap};
use crate::svc::certificates::{
    diff, message, metadata, refusal, summarisable, summary, ErrorView, Metadata, MetadataView,
};
use vstd::prelude::*;

verus! {

// -----------------------------------------------------------------------------
// Error

/// Why a round failed.
#[derive(Debug)]
pub enum Error {
    /// A bundle could not be summarised: the root directory, then the cause.
    ComputeMetadata(String, crate::svc::certificates::Error),
    /// The requests could not be built.
    ComputeMessage(message::Error),
    /// A request could not be delivered.
    Send,
}

// -----------------------------------------------------------------------------
// What happens to a request

/// How the proxy answered a request.
#[derive(Debug, Clone, Copy, PartialEq, Eq)]
pub enum Outcome {
    /// The proxy applied the request.
    Accepted,
    /// The proxy refused the request; it is tried again next round.
    Rejected,
    /// The request could not be delivered; the round is over.
    Failed,
}

/// The kind of a request, by which the counters are labelled.
#[derive(Debug, Clone, Copy, PartialEq, Eq)]
pub enum RequestKind {
    AddCertificate,
    RemoveCertificate,
    ReplaceCertificate,
}

/// What recording an answer amounts to for the counters.
#[derive(Debug, Clone, Copy, PartialEq, Eq)]
pub enum Recorded {
    /// No request awaited an answer.
    Idle,
    /// One more request of this kind was emitted.
    Emitted(RequestKind),
    /// One more request of this kind was emitted and refused.
    EmittedError(RequestKind),
}

/// The kind of a request.
pub open spec fn kind_of(request: RequestView) -> RequestKind {
    match request {
        RequestView::AddCertificate { .. } => RequestKind::AddCertificate,
        RequestView::RemoveCertificate { .. } => RequestKind::RemoveCertificate,
        RequestView::ReplaceCertificate { .. } => RequestKind::ReplaceCertificate,
    }
}

/// The kind of a request.
pub fn kind(request: &RequestType) -> (kind: RequestKind)
    ensures
        kind == kind_of(request@),
{
    match request {
        RequestType::AddCertificate(_) => RequestKind::AddCertificate,
        RequestType::RemoveCertificate(_) => RequestKind::RemoveCertificate,
        RequestType::ReplaceCertificate(_) => RequestKind::ReplaceCertificate,
    }
}

// -----------------------------------------------------------------------------
// What a round is

/// A [`Watcher`] as the value that changes from answer to answer. What
/// never changes, the root directory and the listener, is given by
/// [`Watcher::root`] and [`Watcher::listener`].
#[verifier::ext_equal]
pub struct WatcherView {
    /// What the proxy acknowledged last.
    pub state: Listing<MetadataView>,
    /// What the state becomes when the round in flight completes; the state
    /// itself between rounds.
    pub draft: Listing<MetadataView>,
    /// The requests that await an answer, next first; empty between rounds.
    pub pending: Seq<(Seq<char>, RequestView)>,
}

/// The summaries of the bundles filed under `paths`.
pub open spec fn summaries_of(
    paths: Seq<Seq<char>>,
    pki: Map<Seq<char>, CertificateAndKeyView>,
) -> Listing<MetadataView> {
    Listing {
        paths,
        map: Map::new(|p: Seq<char>| paths.contains(p), |p: Seq<char>| summary(p, pki[p])),
    }
}

/// The snapshot that a scan amounts to: each bundle's summary under its path.
pub open spec fn summaries(pki: Listing<CertificateAndKeyView>) -> Listing<MetadataView> {
    summaries_of(pki.paths, pki.map)
}

/// Every bundle of the scan can be summarised.
pub open spec fn all_summarisable(pki: Listing<CertificateAndKeyView>) -> bool {
    forall|i: int| 0 <= i < pki.paths.len() ==> summarisable(pki.map[#[trigger] pki.paths[i]])
}

/// `error` is why the first bundle of the scan that cannot be summarised is
/// refused.
pub open spec fn first_refusal(pki: Listing<CertificateAndKeyView>, error: ErrorView) -> bool {
    exists|i: int|
        0 <= i < pki.paths.len() && !summarisable(pki.map[#[trigger] pki.paths[i]]) && error
            == refusal(pki.map[pki.paths[i]]) && all_summarisable(
            Listing { paths: pki.paths.take(i), map: pki.map },
        )
}

/// The watcher at the start of a round over the bundles `pki`: the requests
/// await their answers, or, where there is none, the round is complete.
pub open spec fn started(
    listener: SocketAddress,
    state: Listing<MetadataView>,
    pki: Listing<CertificateAndKeyView>,
) -> WatcherView {
    let new = summaries(pki);
    let requests = request_list(listener, state, new, pki.map);
    if requests.len() == 0 {
        WatcherView { state: new, draft: new, pending: requests }
    } else {
        WatcherView { state, draft: new, pending: requests }
    }
}

/// The draft with `path` put back to what the state holds for it: its old
/// summary, or nothing.
pub open spec fn rolled_back(
    state: Listing<MetadataView>,
    draft: Listing<MetadataView>,
    path: Seq<char>,
) -> Listing<MetadataView> {
    if state.map.contains_key(path) {
        draft.insert(path, state.map[path])
    } else {
        draft.remove(path)
    }
}

/// The watcher after the answer to its next request. A failure drops the
/// round. An acceptance keeps the draft, a refusal rolls the request's path
/// back in it; after the last request the draft becomes the state.
pub open spec fn answered(watcher: WatcherView, outcome: Outcome) -> WatcherView {
    if watcher.pending.len() == 0 {
        watcher
    } else if outcome is Failed {
        WatcherView { state: watcher.state, draft: watcher.state, pending: Seq::empty() }
    } else {
        let draft = if outcome is Rejected {
            rolled_back(watcher.state, watcher.draft, watcher.pending[0].0)
        } else {
            watcher.draft
        };
        let pending = watcher.pending.skip(1);
        if pending.len() == 0 {
            WatcherView { state: draft, draft, pending }
        } else {
            WatcherView { state: watcher.state, draft, pending }
        }
    }
}

// -----------------------------------------------------------------------------
// Watcher

struct Round {
    requests: Vec<(String, RequestType)>,
    sent: usize,
    metadata: PathMap<Metadata>,
}

/// Keeps what the proxy acknowledged last and runs one round at a time.
pub struct Watcher {
    /// The root directory of the bundles
    pki: String,
    /// The listener that the certificates are loaded on
    listener: SocketAddress,
    /// Current state of certificates
    metadata: PathMap<Metadata>,
    /// The round in flight
    round: Option<Round>,
}

impl View for Watcher {
    type V = WatcherView;

    closed spec fn view(&self) -> WatcherView {
        match self.round {
            Some(round) => WatcherView {
                state: self.metadata@,
                draft: round.metadata@,
                pending: listed(round.requests@).skip(round.sent as int),
            },
            None => WatcherView {
                state: self.metadata@,
                draft: self.metadata@,
                pending: Seq::empty(),
            },
        }
    }
}

impl Watcher {
    #[verifier::type_invariant]
    spec fn well_formed(&self) -> bool {
        match self.round {
            Some(round) => round.sent < round.requests.len(),
            None => true,
        }
    }

    /// The root directory that the bundles are scanned from.
    pub closed spec fn root(&self) -> Seq<char> {
        self.pki@
    }

    /// The listener that the requests are addressed to.
    pub closed spec fn listener(&self) -> SocketAddress {
        self.listener
    }

    /// A watcher that has seen nothing acknowledged yet.
    pub fn new(pki: String, listener: SocketAddress) -> (watcher: Self)
        ensures
            watcher.root() == pki@,
            watcher.listener() == listener,
            watcher@.state == Listing::<MetadataView>::empty(),
            watcher@.draft == watcher@.state,
            watcher@.pending.len() == 0,
    {
        Watcher { pki, listener, metadata: PathMap::new(), round: None }
    }

    /// What the proxy acknowledged last.
    pub fn metadata(&self) -> (state: &PathMap<Metadata>)
        ensures
            state@ == self@.state,
            state@.valid(),
    {
        proof {
            use_type_invariant(&self.metadata);
            self.metadata.lemma_well_formed();
        }
        &self.metadata
    }

    /// The request to send next, with the path it is about; `None` between
    /// rounds.
    pub fn next_request(&self) -> (next: Option<(&String, &RequestType)>)
        ensures
            next is Some == (self@.pending.len() > 0),
            match next {
                Some((path, request)) => (path@, request@) == self@.pending[0],
                None => true,
            },
    {
        proof {
            use_type_invariant(self);
        }
        match &self.round {
            Some(round) => {
                let (path, request) = &round.requests[round.sent];
                Some((path, request))
            },
            None => None,
        }
    }

    /// Starts a round over the bundles of a scan: summarises each bundle,
    /// compares the summaries with the state and prepares the requests. A
    /// round that was in flight is dropped. Where nothing is to be sent the
    /// round is complete at once. Where a bundle cannot be summarised the
    /// watcher is left as it was.
    pub fn lookup(&mut self, pki: &PathMap<CertificateAndKey>) -> (begun: Result<(), Error>)
        ensures
            final(self).root() == old(self).root(),
            final(self).listener() == old(self).listener(),
            match begun {
                Ok(()) => {
                    &&& all_summarisable(pki@)
                    &&& final(self)@ == started(old(self).listener(), old(self)@.state, pki@)
                },
                Err(Error::ComputeMetadata(root, error)) => {
                    &&& !all_summarisable(pki@)
                    &&& first_refusal(pki@, error@)
                    &&& root@ == old(self).root()
                    &&& final(self)@ == old(self)@
                },
                Err(_) => false,
            },
    {
        // -----------------------------------------------------------------------------
        // Compute metadata for pki
        let mut new: PathMap<Metadata> = PathMap::new();
        let count = pki.len();
        let mut i: usize = 0;
        while i < count
            invariant
                i <= count,
                count == pki@.paths.len(),
                pki@.valid(),
                new@ == summaries_of(pki@.paths.take(i as int), pki@.map),
                forall|k: int| 0 <= k < i ==> summarisable(pki@.map[#[trigger] pki@.paths[k]]),
            decreases count - i,
        {
            if let Some((path, certificate_and_key)) = pki.entry(i) {
                let summarised = match metadata(path.clone(), certificate_and_key) {
                    Ok(summarised) => summarised,
                    Err(err) => {
                        return Err(Error::ComputeMetadata(self.pki.clone(), err));
                    },
                };
                new.insert(path.clone(), summarised);
            }
            i += 1;
        }
        proof {
            assert(pki@.paths.take(count as int) =~= pki@.paths);
        }

        // -----------------------------------------------------------------------------
        // Create diff and messages to send to the proxy
        proof {
            use_type_invariant(&self.metadata);
            self.metadata.lemma_well_formed();
        }
        let requests = match message::create(self.listener, &self.metadata, &new, pki) {
            Ok(requests) => requests,
            Err(err) => {
                proof {
                    lemma_new_paths_are_backed(self.metadata@, new@, pki@.map);
                }
                return Err(Error::ComputeMessage(err));
            },
        };

        if requests.len() == 0 {
            self.round = None;
            self.metadata = new;
        } else {
            self.round = Some(Round { requests, sent: 0, metadata: new });
        }
        Ok(())
    }

    /// Records the answer to the request that [`Watcher::next_request`] shows.
    /// After the last answer of a round the draft becomes the state. A failure
    /// ends the round and leaves the state as it was.
    pub fn record(&mut self, outcome: Outcome) -> (recorded: Result<Recorded, Error>)
        ensures
            final(self).root() == old(self).root(),
            final(self).listener() == old(self).listener(),
            final(self)@ == answered(old(self)@, outcome),
            match recorded {
                Ok(Recorded::Idle) => old(self)@.pending.len() == 0,
                Ok(Recorded::Emitted(kind)) => {
                    &&& old(self)@.pending.len() > 0
                    &&& outcome is Accepted
                    &&& kind == kind_of(old(self)@.pending[0].1)
                },
                Ok(Recorded::EmittedError(kind)) => {
                    &&& old(self)@.pending.len() > 0
                    &&& outcome is Rejected
                    &&& kind == kind_of(old(self)@.pending[0].1)
                },
                Err(Error::Send) => old(self)@.pending.len() > 0 && outcome is Failed,
                Err(_) => false,
            },
    {
        proof {
            use_type_invariant(&*self);
        }
        let mut held: Option<Round> = None;
        std::mem::swap(&mut held, &mut self.round);
        let mut round = match held {
            Some(round) => round,
            None => {
                return Ok(Recorded::Idle);
            },
        };
        let recorded = match outcome {
            Outcome::Failed => {
                return Err(Error::Send);
            },
            Outcome::Accepted => Recorded::Emitted(kind(&round.requests[round.sent].1)),
            Outcome::Rejected => {
                // This will be retried in the next iteration
                let path = &round.requests[round.sent].0;
                match self.metadata.get(path) {
                    Some(meta) => {
                        round.metadata.insert(path.clone(), meta.clone());
                    },
                    None => {
                        round.metadata.remove(path);
                    },
                }
                Recorded::EmittedError(kind(&round.requests[round.sent].1))
            },
        };
        round.sent += 1;
        if round.sent == round.requests.len() {
            // ---------------------------------------------------------------------
            // Update the current metadata
            self.metadata = round.metadata;
        } else {
            self.round = Some(round);
        }
        Ok(recorded)
    }
}

/// In a round over a scan every added or modified path has its bundle: the
/// snapshot is made of the scan's own paths.
pub proof fn lemma_new_paths_are_backed(
    state: Listing<MetadataView>,
    new: Listing<MetadataView>,
    pki: Map<Seq<char>, CertificateAndKeyView>,
)
    requires
        state.valid(),
        new.valid(),
        new.map.dom() == pki.dom(),
    ensures
        all_backed(needing_bundle(state, new), pki),
{
    diff::lemma_filter_distinct(new.paths, diff::absent_from(state.map));
}

// -----------------------------------------------------------------------------
// What holds of a round

/// The watcher after a run of answers, each to the request then next.
pub open spec fn run(watcher: WatcherView, outcomes: Seq<Outcome>) -> WatcherView
    decreases outcomes.len(),
{
    if outcomes.len() == 0 {
        watcher
    } else {
        run(answered(watcher, outcomes[0]), outcomes.skip(1))
    }
}

/// The paths that a list of requests is about, in order.
pub open spec fn paths_of(requests: Seq<(Seq<char>, RequestView)>) -> Seq<Seq<char>> {
    requests.map_values(|r: (Seq<char>, RequestView)| r.0)
}

/// The request about `path` was answered, and refused.
pub open spec fn refused(
    requests: Seq<(Seq<char>, RequestView)>,
    outcomes: Seq<Outcome>,
    path: Seq<char>,
) -> bool {
    exists|i: int|
        0 <= i < outcomes.len() && i < requests.len() && (#[trigger] requests[i]).0 == path
            && outcomes[i] is Rejected
}

/// None of the answers is a failure.
pub open spec fn none_failed(outcomes: Seq<Outcome>) -> bool {
    forall|i: int| 0 <= i < outcomes.len() ==> !(#[trigger] outcomes[i] is Failed)
}

/// The request of a given kind about a path.
pub open spec fn request_for(
    listener: SocketAddress,
    state: Map<Seq<char>, MetadataView>,
    pki: Map<Seq<char>, CertificateAndKeyView>,
    kind: RequestKind,
) -> spec_fn(Seq<char>) -> (Seq<char>, RequestView) {
    match kind {
        RequestKind::AddCertificate => addition(listener, pki),
        RequestKind::RemoveCertificate => removal(listener, state),
        RequestKind::ReplaceCertificate => replacement(listener, state, pki),
    }
}

/// The paths of a diff that get a request of a given kind.
pub open spec fn paths_for(
    state: Map<Seq<char>, MetadataView>,
    new: Map<Seq<char>, MetadataView>,
    kind: RequestKind,
) -> Set<Seq<char>> {
    match kind {
        RequestKind::AddCertificate => added_paths(state, new),
        RequestKind::RemoveCertificate => diff::deleted_paths(state, new),
        RequestKind::ReplaceCertificate => modified_paths(state, new),
    }
}

/// The watcher after a round over the bundles `pki` that was begun from
/// `state` and answered as `outcomes` say.
pub open spec fn round(
    listener: SocketAddress,
    state: Listing<MetadataView>,
    pki: Listing<CertificateAndKeyView>,
    outcomes: Seq<Outcome>,
) -> WatcherView {
    run(started(listener, state, pki), outcomes)
}

/// The `k`-th request of a round over the bundles `pki` begun from `state`,
/// with the path it is about.
pub open spec fn request_at(
    listener: SocketAddress,
    state: Listing<MetadataView>,
    pki: Listing<CertificateAndKeyView>,
    k: int,
) -> (Seq<char>, RequestView) {
    started(listener, state, pki).pending[k]
}

/// The requests of a diff are about its added, then its deleted, then its
/// modified paths, each path once, and each request is the one that its
/// kind calls for.
pub proof fn lemma_request_paths(
    listener: SocketAddress,
    state: Listing<MetadataView>,
    new: Listing<MetadataView>,
    pki: Map<Seq<char>, CertificateAndKeyView>,
)
    requires
        state.valid(),
        new.valid(),
    ensures
        paths_of(request_list(listener, state, new, pki)) == added_order(state, new)
            + deleted_order(state, new) + modified_order(state, new),
        paths_of(request_list(listener, state, new, pki)).no_duplicates(),
        forall|k: int|
            0 <= k < request_list(listener, state, new, pki).len() ==> {
                let request = #[trigger] request_list(listener, state, new, pki)[k];
                &&& request == request_for(listener, state.map, pki, kind_of(request.1))(request.0)
                &&& paths_for(state.map, new.map, kind_of(request.1)).contains(request.0)
            },
{
    let requests = request_list(listener, state, new, pki);
    let added = added_order(state, new);
    let deleted = deleted_order(state, new);
    diff::lemma_orders(state, new);
    diff::lemma_orders_apart(state, new);
    assert(paths_of(requests) =~= added + deleted + modified_order(state, new));
    assert forall|k: int| 0 <= k < requests.len() implies paths_for(
        state.map,
        new.map,
        kind_of((#[trigger] requests[k]).1),
    ).contains(requests[k].0) by {
        if k >= added.len() + deleted.len() {
            assert(modified_order(state, new).to_set().contains(requests[k].0));
        } else if k >= added.len() {
            assert(deleted.to_set().contains(requests[k].0));
        } else {
            assert(added.to_set().contains(requests[k].0));
        }
    }
}

/// Every path of a diff has its request in the list.
pub proof fn lemma_request_listed(
    listener: SocketAddress,
    state: Listing<MetadataView>,
    new: Listing<MetadataView>,
    pki: Map<Seq<char>, CertificateAndKeyView>,
    kind: RequestKind,
    path: Seq<char>,
)
    requires
        state.valid(),
        new.valid(),
        paths_for(state.map, new.map, kind).contains(path),
    ensures
        request_list(listener, state, new, pki).contains(
            request_for(listener, state.map, pki, kind)(path),
        ),
{
    let added = added_order(state, new);
    let deleted = deleted_order(state, new);
    let modified = modified_order(state, new);
    let requests = request_list(listener, state, new, pki);
    diff::lemma_orders(state, new);
    match kind {
        RequestKind::AddCertificate => {
            let at = added.index_of(path);
            assert(requests[at] == addition(listener, pki)(path));
        },
        RequestKind::RemoveCertificate => {
            let at = deleted.index_of(path);
            assert(requests[added.len() + at] == removal(listener, state.map)(path));
        },
        RequestKind::ReplaceCertificate => {
            let at = modified.index_of(path);
            assert(requests[added.len() + deleted.len() + at] == replacement(
                listener,
                state.map,
                pki,
            )(path));
        },
    }
}

/// Between rounds an answer changes nothing.
pub proof fn lemma_run_idle(watcher: WatcherView, outcomes: Seq<Outcome>)
    requires
        watcher.pending.len() == 0,
    ensures
        run(watcher, outcomes) == watcher,
    decreases outcomes.len(),
{
    if outcomes.len() > 0 {
        lemma_run_idle(watcher, outcomes.skip(1));
    }
}

/// When every request is accepted, the draft becomes the state as it is.
pub proof fn lemma_run_accepted(watcher: WatcherView, outcomes: Seq<Outcome>)
    requires
        outcomes.len() == watcher.pending.len(),
        outcomes.len() > 0,
        forall|i: int| 0 <= i < outcomes.len() ==> #[trigger] outcomes[i] is Accepted,
    ensures
        run(watcher, outcomes) == (WatcherView {
            state: watcher.draft,
            draft: watcher.draft,
            pending: Seq::empty(),
        }),
    decreases outcomes.len(),
{
    let next = answered(watcher, outcomes[0]);
    let rest = outcomes.skip(1);
    if outcomes.len() == 1 {
        assert(next.pending =~= Seq::empty());
        assert(run(next, rest) == next);
    } else {
        lemma_run_accepted(next, rest);
    }
}

/// A failure ends the round with the state as it was, whatever was answered
/// before and whatever is answered after.
pub proof fn lemma_run_failed(watcher: WatcherView, outcomes: Seq<Outcome>, k: int)
    requires
        0 <= k < outcomes.len(),
        k < watcher.pending.len(),
        outcomes[k] is Failed,
    ensures
        run(watcher, outcomes) == (WatcherView {
            state: watcher.state,
            draft: watcher.state,
            pending: Seq::empty(),
        }),
    decreases outcomes.len(),
{
    let next = answered(watcher, outcomes[0]);
    let rest = outcomes.skip(1);
    if outcomes[0] is Failed {
        lemma_run_idle(next, rest);
    } else {
        lemma_run_failed(next, rest, k - 1);
    }
}

/// Through any run of answers the state and the draft stay valid listings.
pub proof fn lemma_run_valid(watcher: WatcherView, outcomes: Seq<Outcome>)
    requires
        watcher.state.valid(),
        watcher.draft.valid(),
    ensures
        run(watcher, outcomes).state.valid(),
        run(watcher, outcomes).draft.valid(),
    decreases outcomes.len(),
{
    if outcomes.len() > 0 {
        if watcher.pending.len() > 0 {
            let path = watcher.pending[0].0;
            watcher.draft.lemma_insert_valid(path, watcher.state.map[path]);
            watcher.draft.lemma_remove_valid(path);
        }
        lemma_run_valid(answered(watcher, outcomes[0]), outcomes.skip(1));
    }
}

/// After answers without a failure, the draft holds for each path what the
/// state holds where the path's request was refused, and what it held
/// before otherwise. Once every request is answered the draft is the state.
pub proof fn lemma_run_settled(watcher: WatcherView, outcomes: Seq<Outcome>, path: Seq<char>)
    requires
        paths_of(watcher.pending).no_duplicates(),
        outcomes.len() <= watcher.pending.len(),
        none_failed(outcomes),
    ensures
        run(watcher, outcomes).pending == watcher.pending.skip(outcomes.len() as int),
        run(watcher, outcomes).state == if outcomes.len() == watcher.pending.len() && outcomes.len()
            > 0 {
            run(watcher, outcomes).draft
        } else {
            watcher.state
        },
        run(watcher, outcomes).draft.map.contains_key(path) == if refused(
            watcher.pending,
            outcomes,
            path,
        ) {
            watcher.state.map.contains_key(path)
        } else {
            watcher.draft.map.contains_key(path)
        },
        run(watcher, outcomes).draft.map.contains_key(path) ==> run(
            watcher,
            outcomes,
        ).draft.map[path] == if refused(watcher.pending, outcomes, path) {
            watcher.state.map[path]
        } else {
            watcher.draft.map[path]
        },
    decreases outcomes.len(),
{
    if outcomes.len() > 0 {
        let next = answered(watcher, outcomes[0]);
        let rest = outcomes.skip(1);
        let hit = watcher.pending[0].0 == path && outcomes[0] is Rejected;
        assert(next.pending == watcher.pending.skip(1));
        assert(paths_of(next.pending) =~= paths_of(watcher.pending).skip(1));
        // a refusal among the later answers is a refusal among all, and back
        assert(refused(next.pending, rest, path) ==> refused(watcher.pending, outcomes, path)) by {
            if refused(next.pending, rest, path) {
                let i = choose|i: int|
                    0 <= i < rest.len() && i < next.pending.len() && (#[trigger] next.pending[i]).0
                        == path && rest[i] is Rejected;
                assert(watcher.pending[i + 1].0 == path && outcomes[i + 1] is Rejected);
            }
        }
        assert(refused(watcher.pending, outcomes, path) ==> hit || refused(
            next.pending,
            rest,
            path,
        )) by {
            if refused(watcher.pending, outcomes, path) {
                let i = choose|i: int|
                    0 <= i < outcomes.len() && i < watcher.pending.len()
                        && (#[trigger] watcher.pending[i]).0 == path && outcomes[i] is Rejected;
                if i > 0 {
                    assert(next.pending[i - 1].0 == path && rest[i - 1] is Rejected);
                }
            }
        }
        assert(hit ==> refused(watcher.pending, outcomes, path)) by {
            if hit {
                assert(watcher.pending[0].0 == path && outcomes[0] is Rejected);
            }
        }
        // the path of the first request is not asked about again
        assert(hit ==> !refused(next.pending, rest, path)) by {
            if hit && refused(next.pending, rest, path) {
                let i = choose|i: int|
                    0 <= i < rest.len() && i < next.pending.len() && (#[trigger] next.pending[i]).0
                        == path && rest[i] is Rejected;
                assert(paths_of(watcher.pending)[0] == paths_of(watcher.pending)[i + 1]);
            }
        }
        if watcher.pending.len() == 1 {
            assert(run(next, rest) == next);
            assert(next.pending =~= watcher.pending.skip(outcomes.len() as int));
        } else {
            lemma_run_settled(next, rest, path);
            assert(next.pending.skip(rest.len() as int) =~= watcher.pending.skip(
                outcomes.len() as int,
            ));
        }
    }
}

/// A round in which every request is accepted ends with the snapshot of
/// the scan as the state, and a second round over the same scan has nothing
/// to send and changes nothing.
pub proof fn lemma_clean_round_repeats_empty(
    listener: SocketAddress,
    state: Listing<MetadataView>,
    pki: Listing<CertificateAndKeyView>,
    outcomes: Seq<Outcome>,
)
    requires
        state.valid(),
        pki.valid(),
        outcomes.len() == started(listener, state, pki).pending.len(),
        forall|i: int| 0 <= i < outcomes.len() ==> #[trigger] outcomes[i] is Accepted,
    ensures
        round(listener, state, pki, outcomes).state == summaries(pki),
        round(listener, state, pki, outcomes).pending.len() == 0,
        request_list(listener, summaries(pki), summaries(pki), pki.map).len() == 0,
        started(listener, round(listener, state, pki, outcomes).state, pki) == round(
            listener,
            state,
            pki,
            outcomes,
        ),
{
    diff::lemma_orders_of_same(summaries(pki));
    if outcomes.len() > 0 {
        lemma_run_accepted(started(listener, state, pki), outcomes);
    }
}

/// When a replacement is refused and no request fails, the state after the
/// round holds for that path what it held before, and the next diff against
/// the same scan finds the path modified again.
pub proof fn lemma_refused_replacement_is_retried(
    listener: SocketAddress,
    state: Listing<MetadataView>,
    pki: Listing<CertificateAndKeyView>,
    outcomes: Seq<Outcome>,
    k: int,
)
    requires
        state.valid(),
        pki.valid(),
        outcomes.len() == started(listener, state, pki).pending.len(),
        none_failed(outcomes),
        0 <= k < outcomes.len(),
        request_at(listener, state, pki, k).1 is ReplaceCertificate,
        outcomes[k] is Rejected,
    ensures
        round(listener, state, pki, outcomes).pending.len() == 0,
        state.map.contains_key(request_at(listener, state, pki, k).0),
        round(listener, state, pki, outcomes).state.map.contains_key(
            request_at(listener, state, pki, k).0,
        ),
        round(listener, state, pki, outcomes).state.map[request_at(listener, state, pki, k).0]
            == state.map[request_at(listener, state, pki, k).0],
        modified_paths(
            round(listener, state, pki, outcomes).state.map,
            summaries(pki).map,
        ).contains(request_at(listener, state, pki, k).0),
{
    lemma_request_paths(listener, state, summaries(pki), pki.map);
    lemma_run_settled(
        started(listener, state, pki),
        outcomes,
        request_at(listener, state, pki, k).0,
    );
}

/// When the addition of a new path is refused and no request fails, the
/// state after the round does not hold the path, and the next diff against
/// the same scan finds the path added again.
pub proof fn lemma_refused_addition_is_retried(
    listener: SocketAddress,
    state: Listing<MetadataView>,
    pki: Listing<CertificateAndKeyView>,
    outcomes: Seq<Outcome>,
    k: int,
)
    requires
        state.valid(),
        pki.valid(),
        outcomes.len() == started(listener, state, pki).pending.len(),
        none_failed(outcomes),
        0 <= k < outcomes.len(),
        request_at(listener, state, pki, k).1 is AddCertificate,
        outcomes[k] is Rejected,
    ensures
        round(listener, state, pki, outcomes).pending.len() == 0,
        !state.map.contains_key(request_at(listener, state, pki, k).0),
        !round(listener, state, pki, outcomes).state.map.contains_key(
            request_at(listener, state, pki, k).0,
        ),
        added_paths(
            round(listener, state, pki, outcomes).state.map,
            summaries(pki).map,
        ).contains(request_at(listener, state, pki, k).0),
{
    lemma_request_paths(listener, state, summaries(pki), pki.map);
    lemma_run_settled(
        started(listener, state, pki),
        outcomes,
        request_at(listener, state, pki, k).0,
    );
}

/// When a request is refused and no request fails, the next round over the
/// same scan holds the very same request again.
pub proof fn lemma_refused_request_is_sent_again(
    listener: SocketAddress,
    state: Listing<MetadataView>,
    pki: Listing<CertificateAndKeyView>,
    outcomes: Seq<Outcome>,
    k: int,
)
    requires
        state.valid(),
        pki.valid(),
        outcomes.len() == started(listener, state, pki).pending.len(),
        none_failed(outcomes),
        0 <= k < outcomes.len(),
        outcomes[k] is Rejected,
    ensures
        round(listener, state, pki, outcomes).pending.len() == 0,
        started(listener, round(listener, state, pki, outcomes).state, pki).pending.contains(
            request_at(listener, state, pki, k),
        ),
{
    let first = started(listener, state, pki);
    let request = first.pending[k];
    lemma_request_paths(listener, state, summaries(pki), pki.map);
    lemma_run_settled(first, outcomes, request.0);
    lemma_run_valid(first, outcomes);
    lemma_request_listed(
        listener,
        run(first, outcomes).state,
        summaries(pki),
        pki.map,
        kind_of(request.1),
        request.0,
    );
}

/// When a request fails, the state after the round is the state before it:
/// nothing of what was accepted or refused earlier in the round is kept.
pub proof fn lemma_failed_round_keeps_state(
    listener: SocketAddress,
    state: Listing<MetadataView>,
    pki: Listing<CertificateAndKeyView>,
    outcomes: Seq<Outcome>,
    k: int,
)
    requires
        0 <= k < outcomes.len(),
        k < started(listener, state, pki).pending.len(),
        outcomes[k] is Failed,
    ensures
        round(listener, state, pki, outcomes).state == state,
        round(listener, state, pki, outcomes).draft == state,
        round(listener, state, pki, outcomes).pending.len() == 0,
{
    lemma_run_failed(started(listener, state, pki), outcomes, k);
}

} // verus!
